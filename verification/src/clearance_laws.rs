//! What is left where a contact pushes nothing: bodies that are far enough apart everywhere.

use crate::attachment::{
    collider_end, collider_start, interpolate_weights, inverse_weight, parting_normal, point_of,
    safe_normal, static_push,
};
use crate::axis_laws::{lemma_clear_rod, lemma_seen_from};
use crate::body::{
    hub_center, rod_end, rod_joint_endpoints, rod_radius, rod_start, weighted_point,
    AffineBody, BodyKind, ControlPoints, Weights,
};
use crate::constants::{
    contact_epsilon, hub_radius, rod_collider_trim, rod_length_factor, CONTACT_PASSES,
};
use crate::contact_laws::{
    lemma_between_sum, lemma_cylinder_contact_resolves, lemma_interpolated_point,
    lemma_static_push_resolves, lemma_trimmed_end,
    rod_contact_weights,
};
use crate::cylinder::{
    cylinder_contact, cylinder_contacts, lemma_contacts_stop, reject_from_x_axis, CylinderCollider,
};
use crate::dual_laws::lemma_joint_point_of;
use crate::field::{
    exact, lemma_associate, lemma_commute, lemma_difference, lemma_distribute,
    lemma_distribute_difference, lemma_distribute_left, lemma_exchange, lemma_negated_product,
    lemma_negation, lemma_one, lemma_parts, lemma_quotient, lemma_reciprocal, lemma_take_nothing,
    lemma_undo, lemma_zero,
};
use crate::grid::{hub_total, lemma_counts};
use crate::least_laws::{lemma_inner_plus, lemma_square_of_sum};
use crate::order::{
    lemma_add_both, lemma_chain, lemma_clamped, lemma_compare, lemma_gap, lemma_half,
    lemma_opposite_order, lemma_ordered_is_exact, lemma_part_of_sum, lemma_scale_both, lemma_sign,
    lemma_square, lemma_turn_difference, ordered,
};
use crate::polar_laws::lemma_unit_stretched;
use crate::pruning_laws::lemma_take_two;
use crate::rotation_laws::{
    lemma_direction, lemma_exchange_pairs, lemma_length, lemma_no_product_is_zero,
    lemma_reciprocal_positive, lemma_rooted,
    lemma_scaled_inner, lemma_scaled_squared, lemma_squared, lemma_unit_normal,
    rooted,
};
use crate::scalar::{clamp_to_unit, half, one, quarter, zero, Scalar};
use crate::scene::DemoScene;
use crate::shape_laws::{lemma_is_quarter, lemma_sum_and_difference};
use crate::simulation::{contacted, layout, Motion, Setup};
use crate::vector::Vec3;
use vstd::prelude::*;

verus! {

/// A product of numbers on the same side of zero is not negative.
proof fn lemma_same_side<S: Scalar>(a: S, b: S)
    requires
        ordered::<S>(),
        (zero::<S>().at_most(a) && zero::<S>().at_most(b)) || (a.at_most(zero()) && b.at_most(
            zero(),
        )),
    ensures
        zero::<S>().at_most(a.times(b)),
{
    lemma_ordered_is_exact::<S>();
    if zero::<S>().at_most(a) && zero::<S>().at_most(b) {
        lemma_sign(a, b);
    } else {
        lemma_opposite_order(a, zero());
        lemma_opposite_order(b, zero());
        lemma_take_nothing(a);
        lemma_sign(a.negated(), b.negated());
        lemma_negated_product(a, b.negated());
        lemma_negated_product(a, b);
        lemma_negation(a.times(b), b);
    }
}

/// How a segment rises at its point closest to the origin: not at all inside, and away from
/// the segment at its ends.
proof fn lemma_slope<S: Scalar>(along: S, square: S, u: S)
    requires
        ordered::<S>(),
        zero::<S>().below(square),
        zero::<S>().at_most(u),
        u.at_most(one()),
    ensures
        ({
            let t = clamp_to_unit(along.negated().over(square));
            zero::<S>().at_most(along.plus(square.times(t)).times(u.minus(t)))
        }),
{
    lemma_ordered_is_exact::<S>();
    let raw = along.negated().over(square);
    let t = clamp_to_unit(raw);
    let slope = along.plus(square.times(t));
    lemma_compare(zero(), square);
    lemma_compare(raw, zero());
    lemma_compare(one(), raw);
    lemma_quotient(along.negated(), square);
    lemma_compare(zero::<S>(), zero());
    lemma_zero(square);
    lemma_one(square);
    if raw.below(zero()) {
        lemma_zero(square);
        lemma_take_nothing(along);
        lemma_take_nothing(u);
        assert(zero::<S>().at_most(along)) by {
            lemma_compare(zero(), along);
            if !zero::<S>().at_most(along) {
                lemma_opposite_order(along, zero());
                let inverse = one::<S>().over(square);
                lemma_reciprocal_positive(square);
                lemma_compare(zero(), inverse);
                lemma_reciprocal(along.negated(), square);
                lemma_sign(along.negated(), inverse);
            }
        }
        lemma_sign(slope, u.minus(t));
    } else if one::<S>().below(raw) {
        lemma_one(square);
        lemma_scale_both(one(), raw, square);
        lemma_add_both(square, along.negated(), along);
        lemma_zero(along);
        lemma_commute(along.negated(), along);
        lemma_gap(u, one());
        lemma_add_both(u, one(), one::<S>().negated());
        lemma_zero(one::<S>());
        lemma_difference(u, one());
        lemma_commute(along, square);
        lemma_same_side(slope, u.minus(t));
    } else {
        lemma_zero(along);
        lemma_zero(u.minus(t));
    }
}

/// The point of a segment that a clamped projection finds is the closest to the origin.
pub proof fn lemma_closest_on_segment<S: Scalar>(start: Vec3<S>, direction: Vec3<S>, u: S)
    requires
        ordered::<S>(),
        zero::<S>().below(direction.squared()),
        zero::<S>().at_most(u),
        u.at_most(one()),
    ensures
        ({
            let t = clamp_to_unit(
                start.inner(direction).negated().over(direction.squared()),
            );
            start.plus(direction.scaled(t)).squared().at_most(
                start.plus(direction.scaled(u)).squared(),
            )
        }),
{
    lemma_ordered_is_exact::<S>();
    let along = start.inner(direction);
    let square = direction.squared();
    let t = clamp_to_unit(along.negated().over(square));
    let here = start.plus(direction.scaled(t));
    let there = start.plus(direction.scaled(u));
    let step = direction.scaled(u.minus(t));
    lemma_further(start.x, direction.x, t, u);
    lemma_further(start.y, direction.y, t, u);
    lemma_further(start.z, direction.z, t, u);
    assert(there == here.plus(step));
    lemma_square_of_sum(here, step);
    let rise = step.inner(here);
    assert(rise == along.plus(square.times(t)).times(u.minus(t))) by {
        lemma_scaled_inner(here, direction, u.minus(t));
        lemma_inner_plus(start, direction.scaled(t), direction);
        lemma_scaled_inner(direction, direction, t);
    }
    lemma_slope(along, square, u);
    lemma_squared(step);
    lemma_part_of_sum(rise, rise);
    lemma_squared(here);
    lemma_part_of_sum(step.squared(), here.squared());
    lemma_part_of_sum(step.squared().plus(here.squared()), rise.plus(rise));
    lemma_chain(here.squared(), step.squared().plus(here.squared()), there.squared());
}

proof fn lemma_further<S: Scalar>(start: S, direction: S, t: S, u: S)
    requires
        exact::<S>(),
    ensures
        start.plus(direction.times(u)) == start.plus(direction.times(t)).plus(
            direction.times(u.minus(t)),
        ),
{
    lemma_undo(u, t);
    lemma_distribute_left(t, u.minus(t), direction);
    lemma_associate(start, direction.times(t), direction.times(u.minus(t)));
}

/// The square of the distance of a point from the line of a cylinder along x.
pub open spec fn from_line<S: Scalar>(point: Vec3<S>, cylinder: CylinderCollider<S>) -> S {
    let y = point.y.minus(cylinder.origin.y);
    let z = point.z.minus(cylinder.origin.z);
    y.times(y).plus(z.times(z))
}

/// The point a part of the way along the part of a rod that collides.
pub open spec fn rod_point<S: Scalar>(body: AffineBody<S>, part: S) -> Vec3<S> {
    let start = point_of(body, collider_start());
    start.plus(point_of(body, collider_end()).minus(start).scaled(part))
}

/// How far the part of a rod that collides leads away from the direction of x, squared.
pub open spec fn rod_span<S: Scalar>(body: AffineBody<S>) -> S {
    let way = point_of(body, collider_end()).minus(point_of(body, collider_start()));
    way.y.times(way.y).plus(way.z.times(way.z))
}

/// Whether a push anywhere can move a body: it is free, and gives way by more than counts as
/// nothing.
pub open spec fn movable<S: Scalar>(body: AffineBody<S>) -> bool {
    &&& !body.fixed
    &&& S::fraction(1, 1000000000000).below(inverse_weight(body, hub_center()))
    &&& forall|part: S|
        zero::<S>().at_most(part) && part.at_most(one()) ==> S::fraction(1, 1000000000000).below(
            #[trigger] inverse_weight(
                body,
                interpolate_weights(collider_start(), collider_end(), part),
            ),
        )
}

/// What lies between two pairs of numbers that add up to the same adds up to it.
proof fn lemma_shares_between<S: Scalar>(a: S, b: S, c: S, d: S, whole: S, t: S)
    requires
        exact::<S>(),
        a.plus(c) == whole,
        b.plus(d) == whole,
    ensures
        a.plus(b.minus(a).times(t)).plus(c.plus(d.minus(c).times(t))) == whole,
{
    lemma_between_sum(a, b, c, d, t);
    lemma_difference(whole, whole);
    lemma_zero(whole);
    lemma_zero(t);
}

/// The squares of two shares of a half, each taken twice, add up to at least a quarter.
proof fn lemma_shares_squared<S: Scalar>(a: S, b: S)
    requires
        ordered::<S>(),
        a.plus(b) == half::<S>(),
    ensures
        quarter::<S>().at_most(
            zero::<S>().plus(a.times(a)).plus(a.times(a)).plus(b.times(b)).plus(b.times(b)),
        ),
{
    lemma_ordered_is_exact::<S>();
    let (c, d) = (a.plus(b), a.minus(b));
    let (p, q) = (a.times(a), b.times(b));
    lemma_sum_and_difference(a, b);
    lemma_distribute(a, b, c);
    lemma_distribute_difference(a, b, d);
    lemma_difference(a.times(d), b.times(d));
    lemma_exchange(a.times(c), b.times(c), a.times(d), b.times(d).negated());
    lemma_difference(b.times(c), b.times(d));
    lemma_distribute_left(c, d, a);
    lemma_distribute_difference(c, d, b);
    lemma_distribute_left(a, a, a);
    lemma_distribute_left(b, b, b);
    assert(c.times(c).plus(d.times(d)) == p.plus(p).plus(q.plus(q)));
    lemma_take_nothing(p);
    lemma_associate(p.plus(p), q, q);
    let part = half::<S>().times(half());
    lemma_parts(half::<S>());
    lemma_half::<S>();
    lemma_is_quarter(part);
    lemma_square(c);
    lemma_square(d);
    lemma_part_of_sum(c.times(c), d.times(d));
}

/// In exact arithmetic a push anywhere can move a free body that gives way, at its centre, by
/// more than counts as nothing.
pub proof fn lemma_free_is_movable<S: Scalar>(body: AffineBody<S>)
    requires
        ordered::<S>(),
        !body.fixed,
        zero::<S>().at_most(body.inverse_diagonal),
        contact_epsilon::<S>().below(body.inverse_diagonal.times(quarter())),
    ensures
        movable(body),
{
    lemma_ordered_is_exact::<S>();
    let inverse = body.inverse_diagonal;
    let (trim, rest) = (rod_collider_trim::<S>(), one::<S>().minus(rod_collider_trim()));
    lemma_parts(quarter::<S>());
    lemma_take_nothing(quarter::<S>().times(quarter()));
    lemma_take_nothing(half::<S>());
    lemma_shares_between(half(), zero(), zero(), half(), half::<S>(), trim);
    lemma_shares_between(half(), zero(), zero(), half(), half::<S>(), rest);
    assert forall|part: S|
        zero::<S>().at_most(part) && part.at_most(one()) implies contact_epsilon::<S>().below(
        #[trigger] inverse_weight(
            body,
            interpolate_weights(collider_start(), collider_end(), part),
        ),
    ) by {
        let (start, end) = (collider_start::<S>(), collider_end::<S>());
        let weights = interpolate_weights(start, end, part);
        lemma_shares_between(start.w0, end.w0, start.w2, end.w2, half::<S>(), part);
        lemma_shares_squared(weights.w0, weights.w2);
        let sum = zero::<S>().plus(weights.w0.times(weights.w0)).plus(
            weights.w1.times(weights.w1),
        ).plus(weights.w2.times(weights.w2)).plus(weights.w3.times(weights.w3));
        lemma_scale_both(quarter(), sum, inverse);
        lemma_compare(contact_epsilon(), inverse.times(quarter()));
        lemma_compare(contact_epsilon(), inverse.times(sum));
        if inverse.times(sum).at_most(contact_epsilon()) {
            lemma_chain(inverse.times(quarter()), inverse.times(sum), contact_epsilon());
        }
    }
}

/// A vector without its part along x.
proof fn lemma_flat<S: Scalar>(y: S, z: S)
    requires
        exact::<S>(),
    ensures
        (Vec3 { x: zero(), y, z }).squared() == y.times(y).plus(z.times(z)),
{
    lemma_zero(zero::<S>());
    lemma_take_nothing(y.times(y));
}

/// A point of a rod seen from the line of the cylinder.
proof fn lemma_rod_point_seen<S: Scalar>(
    body: AffineBody<S>,
    cylinder: CylinderCollider<S>,
    part: S,
)
    requires
        exact::<S>(),
    ensures
        ({
            let start = point_of(body, collider_start());
            let start_radial = reject_from_x_axis(start.minus(cylinder.origin));
            let direction_radial = reject_from_x_axis(
                point_of(body, collider_end()).minus(start),
            );
            &&& start_radial.plus(direction_radial.scaled(part)).squared() == from_line(
                rod_point(body, part),
                cylinder,
            )
            &&& direction_radial.squared() == rod_span(body)
            &&& start_radial.plus(direction_radial.scaled(part)) == reject_from_x_axis(
                rod_point(body, part).minus(cylinder.origin),
            )
            &&& rod_point(body, part) == point_of(
                body,
                interpolate_weights(collider_start(), collider_end(), part),
            )
        }),
{
    let start = point_of(body, collider_start());
    let way = point_of(body, collider_end()).minus(start);
    let point = rod_point(body, part);
    lemma_interpolated_point(body, collider_start(), collider_end(), part);
    lemma_seen_from(start.y, way.y.times(part), cylinder.origin.y);
    lemma_seen_from(start.z, way.z.times(part), cylinder.origin.z);
    lemma_zero(part);
    lemma_take_nothing(zero::<S>());
    lemma_flat(way.y, way.z);
    lemma_flat(point.y.minus(cylinder.origin.y), point.z.minus(cylinder.origin.z));
}

/// Two numbers whose squares add up to zero are zero.
proof fn lemma_no_span<S: Scalar>(y: S, z: S)
    requires
        ordered::<S>(),
        y.times(y).plus(z.times(z)) == zero::<S>(),
    ensures
        y == zero::<S>(),
        z == zero::<S>(),
{
    lemma_ordered_is_exact::<S>();
    let (a, b) = (y.times(y), z.times(z));
    lemma_square(y);
    lemma_square(z);
    lemma_part_of_sum(a, b);
    lemma_compare(a, zero());
    lemma_compare(b, zero());
    if y != zero::<S>() {
        lemma_no_product_is_zero(y, y);
    }
    if z != zero::<S>() {
        lemma_no_product_is_zero(z, z);
    }
}

/// In exact arithmetic a hub or rod that the cylinder does not push, although it could be
/// pushed, is clear of it: the centre of the hub, and every point of the part of the rod that
/// collides, in whatever direction it lies. Of a rod whose ends are next to equally far from
/// the line, but not quite, the middle is looked at alone.
pub proof fn lemma_untouched_is_clear<S: Scalar>(
    body: AffineBody<S>,
    previous: ControlPoints<S>,
    cylinder: CylinderCollider<S>,
    part: S,
)
    requires
        ordered::<S>(),
        zero::<S>().at_most(contact_epsilon()),
        zero::<S>().at_most(cylinder.radius),
        movable(body),
        !cylinder_contact(body, previous, cylinder).1,
        zero::<S>().at_most(part),
        part.at_most(one()),
    ensures
        body.kind is Hub ==> ({
            let distance = cylinder.radius.plus(hub_radius());
            distance.times(distance).at_most(from_line(point_of(body, hub_center()), cylinder))
        }),
        body.kind is Rod && (contact_epsilon::<S>().below(rod_span(body)) || rod_span(body)
            == zero::<S>() || part == half::<S>()) ==> ({
            let distance = cylinder.radius.plus(rod_radius());
            distance.times(distance).at_most(from_line(rod_point(body, part), cylinder))
        }),
{
    lemma_ordered_is_exact::<S>();
    match body.kind {
        BodyKind::Hub { .. } => {
            let point = point_of(body, hub_center());
            let radial = reject_from_x_axis(point.minus(cylinder.origin));
            let distance = cylinder.radius.plus(hub_radius());
            lemma_flat(radial.y, radial.z);
            lemma_compare(distance.times(distance), radial.squared());
            lemma_compare(inverse_weight(body, hub_center()), contact_epsilon());
        },
        BodyKind::Rod => {
            if contact_epsilon::<S>().below(rod_span(body)) || rod_span(body) == zero::<S>()
                || part == half::<S>() {
                lemma_untouched_rod(body, previous, cylinder, part);
            }
        },
        BodyKind::Ball => {},
    }
}

proof fn lemma_untouched_rod<S: Scalar>(
    body: AffineBody<S>,
    previous: ControlPoints<S>,
    cylinder: CylinderCollider<S>,
    part: S,
)
    requires
        ordered::<S>(),
        zero::<S>().at_most(contact_epsilon()),
        zero::<S>().at_most(cylinder.radius),
        movable(body),
        body.kind is Rod,
        !cylinder_contact(body, previous, cylinder).1,
        zero::<S>().at_most(part),
        part.at_most(one()),
        contact_epsilon::<S>().below(rod_span(body)) || rod_span(body) == zero::<S>() || part
            == half::<S>(),
    ensures
        ({
            let distance = cylinder.radius.plus(rod_radius());
            distance.times(distance).at_most(from_line(rod_point(body, part), cylinder))
        }),
{
    lemma_ordered_is_exact::<S>();
    let start = point_of(body, collider_start());
    let end = point_of(body, collider_end());
    let start_radial = reject_from_x_axis(start.minus(cylinder.origin));
    let way = reject_from_x_axis(end.minus(start));
    let span = way.squared();
    let distance = cylinder.radius.plus(rod_radius());
    let raw = start_radial.inner(way).negated().over(span);
    let t = if contact_epsilon::<S>().below(span) {
        clamp_to_unit(raw)
    } else {
        half()
    };
    let here = start_radial.plus(way.scaled(t)).squared();
    let there = start_radial.plus(way.scaled(part)).squared();
    lemma_rod_point_seen(body, cylinder, part);
    lemma_half::<S>();
    lemma_clamped(raw);
    lemma_part_of_sum(cylinder.radius, rod_radius());
    let middle = start_radial.plus(way.scaled(half()));
    let reach = way.magnitudes().scaled(half()).plus(Vec3::all(distance));
    if reach.y.below(middle.y.magnitude()) || reach.z.below(middle.z.magnitude()) {
        lemma_clear_rod(start_radial, way, part, distance);
    } else {
        let weights = interpolate_weights::<S>(collider_start(), collider_end(), t);
        lemma_compare(inverse_weight(body, weights), contact_epsilon());
        lemma_compare(distance.times(distance), here);
        if contact_epsilon::<S>().below(span) {
            lemma_compare(contact_epsilon(), span);
            lemma_chain(zero(), contact_epsilon(), span);
            lemma_compare(zero(), span);
            lemma_closest_on_segment(start_radial, way, part);
            lemma_chain(distance.times(distance), here, there);
        } else if part != half::<S>() {
            lemma_no_span(way.y, way.z);
            lemma_zero(part);
            lemma_zero(half::<S>());
        }
    }
}

/// The cylinder pushes nothing that is clear of it, and no ball: what it pushes has a point
/// that is too close to its line.
pub proof fn lemma_pushed_was_inside<S: Scalar>(
    body: AffineBody<S>,
    previous: ControlPoints<S>,
    cylinder: CylinderCollider<S>,
)
    requires
        ordered::<S>(),
        cylinder_contact(body, previous, cylinder).1,
    ensures
        !(body.kind is Ball),
        !body.fixed,
        body.kind is Hub ==> ({
            let distance = cylinder.radius.plus(hub_radius());
            from_line(point_of(body, hub_center()), cylinder).below(distance.times(distance))
        }),
        body.kind is Rod ==> ({
            let distance = cylinder.radius.plus(rod_radius());
            exists|part: S|
                zero::<S>().at_most(part) && part.at_most(one()) && from_line(
                    #[trigger] rod_point(body, part),
                    cylinder,
                ).below(distance.times(distance))
        }),
{
    lemma_ordered_is_exact::<S>();
    match body.kind {
        BodyKind::Hub { .. } => {
            let radial = reject_from_x_axis(
                point_of(body, hub_center()).minus(cylinder.origin),
            );
            let distance = cylinder.radius.plus(hub_radius());
            lemma_flat(radial.y, radial.z);
            lemma_compare(distance.times(distance), radial.squared());
        },
        BodyKind::Rod => {
            let start = point_of(body, collider_start());
            let start_radial = reject_from_x_axis(start.minus(cylinder.origin));
            let way = reject_from_x_axis(point_of(body, collider_end()).minus(start));
            let raw = start_radial.inner(way).negated().over(way.squared());
            let t = if contact_epsilon::<S>().below(way.squared()) {
                clamp_to_unit(raw)
            } else {
                half()
            };
            lemma_half::<S>();
            lemma_clamped(raw);
            lemma_rod_point_seen(body, cylinder, t);
        },
        BodyKind::Ball => {},
    }
}

/// The square of a radius along a unit vector.
pub proof fn lemma_stretched_radius<S: Scalar>(radial: Vec3<S>, distance: S)
    requires
        rooted::<S>(),
        radial.squared() != zero::<S>(),
    ensures
        radial.over(radial.squared().root()).scaled(distance).squared() == distance.times(
            distance,
        ),
{
    lemma_rooted::<S>();
    let length = radial.squared().root();
    let inverse = one::<S>().over(length);
    lemma_length(radial);
    lemma_compare(zero(), length);
    lemma_reciprocal(radial.x, length);
    lemma_reciprocal(radial.y, length);
    lemma_reciprocal(radial.z, length);
    let unit = radial.scaled(inverse);
    lemma_scaled_squared(radial, inverse);
    lemma_exchange_pairs(length, length, inverse, inverse);
    lemma_quotient(one(), length);
    lemma_one(one::<S>());
    lemma_scaled_squared(unit, distance);
    lemma_one(distance.times(distance));
}

/// In exact arithmetic a hub that has met the cylinder is clear of it, whether it was pushed
/// or not, unless its centre was on the line of the cylinder; a hub that was pushed just
/// touches it.
pub proof fn lemma_hub_ends_clear<S: Scalar>(
    body: AffineBody<S>,
    previous: ControlPoints<S>,
    cylinder: CylinderCollider<S>,
)
    requires
        rooted::<S>(),
        zero::<S>().at_most(cylinder.radius),
        movable(body),
        body.kind is Hub,
        contact_epsilon::<S>().below(from_line(point_of(body, hub_center()), cylinder)),
    ensures
        ({
            let distance = cylinder.radius.plus(hub_radius());
            let (after, applied) = cylinder_contact(body, previous, cylinder);
            let end = from_line(point_of(after, hub_center()), cylinder);
            &&& distance.times(distance).at_most(end)
            &&& applied ==> end == distance.times(distance)
            &&& !applied ==> after == body
        }),
{
    lemma_rooted::<S>();
    let (after, applied) = cylinder_contact(body, previous, cylinder);
    let distance = cylinder.radius.plus(hub_radius());
    let radial = reject_from_x_axis(point_of(body, hub_center()).minus(cylinder.origin));
    let moved = reject_from_x_axis(point_of(after, hub_center()).minus(cylinder.origin));
    lemma_flat(radial.y, radial.z);
    lemma_flat(moved.y, moved.z);
    lemma_compare(zero::<S>(), zero());
    lemma_compare(zero::<S>(), one());
    lemma_compare(distance.times(distance), distance.times(distance));
    lemma_above_epsilon(radial.squared());
    if applied {
        lemma_length(radial);
        lemma_compare(zero(), radial.squared().root());
        lemma_above_epsilon(inverse_weight(body, hub_center()));
        lemma_cylinder_contact_resolves(body, previous, cylinder);
        lemma_stretched_radius(radial, distance);
    } else {
        lemma_untouched_is_clear(body, previous, cylinder, zero());
    }
}

/// What is above the threshold of contacts is not zero.
pub proof fn lemma_above_epsilon<S: Scalar>(a: S)
    requires
        rooted::<S>(),
        contact_epsilon::<S>().below(a),
    ensures
        a != zero::<S>(),
{
    lemma_rooted::<S>();
    lemma_compare(contact_epsilon(), a);
}

/// In exact arithmetic a rod that the cylinder has pushed just touches it at a point of the
/// part that collides: at its point that was closest to the line of the cylinder.
pub proof fn lemma_rod_ends_touching<S: Scalar>(
    body: AffineBody<S>,
    previous: ControlPoints<S>,
    cylinder: CylinderCollider<S>,
)
    requires
        rooted::<S>(),
        zero::<S>().at_most(cylinder.radius),
        movable(body),
        body.kind is Rod,
        cylinder_contact(body, previous, cylinder).1,
        forall|part: S|
            zero::<S>().at_most(part) && part.at_most(one()) ==> contact_epsilon::<S>().below(
                from_line(#[trigger] rod_point(body, part), cylinder),
            ),
    ensures
        ({
            let distance = cylinder.radius.plus(rod_radius());
            let after = cylinder_contact(body, previous, cylinder).0;
            exists|part: S|
                #![trigger rod_point(after, part)]
                {
                    &&& zero::<S>().at_most(part) && part.at_most(one())
                    &&& from_line(rod_point(after, part), cylinder) == distance.times(distance)
                    &&& contact_epsilon::<S>().below(rod_span(body)) ==> forall|other: S|
                        zero::<S>().at_most(other) && other.at_most(one()) ==> from_line(
                            rod_point(body, part),
                            cylinder,
                        ).at_most(from_line(#[trigger] rod_point(body, other), cylinder))
                }
        }),
{
    lemma_rooted::<S>();
    let after = cylinder_contact(body, previous, cylinder).0;
    let distance = cylinder.radius.plus(rod_radius());
    let start = point_of(body, collider_start());
    let start_radial = reject_from_x_axis(start.minus(cylinder.origin));
    let way = reject_from_x_axis(point_of(body, collider_end()).minus(start));
    let raw = start_radial.inner(way).negated().over(way.squared());
    let t = if contact_epsilon::<S>().below(way.squared()) {
        clamp_to_unit(raw)
    } else {
        half()
    };
    let weights = rod_contact_weights(body, cylinder);
    lemma_half::<S>();
    lemma_clamped(raw);
    lemma_rod_point_seen(body, cylinder, t);
    lemma_rod_point_seen(after, cylinder, t);
    let radial = reject_from_x_axis(rod_point(body, t).minus(cylinder.origin));
    let end = reject_from_x_axis(rod_point(after, t).minus(cylinder.origin));
    assert(weights == interpolate_weights(collider_start(), collider_end(), t));
    lemma_flat(radial.y, radial.z);
    lemma_flat(end.y, end.z);
    assert(contact_epsilon::<S>().below(from_line(rod_point(body, t), cylinder)));
    lemma_above_epsilon(radial.squared());
    lemma_length(radial);
    lemma_compare(zero(), radial.squared().root());
    lemma_above_epsilon(inverse_weight(body, weights));
    lemma_cylinder_contact_resolves(body, previous, cylinder);
    lemma_stretched_radius(radial, distance);
    assert(from_line(rod_point(after, t), cylinder) == distance.times(distance));
    if contact_epsilon::<S>().below(rod_span(body)) {
        lemma_compare(contact_epsilon(), way.squared());
        lemma_chain(zero(), contact_epsilon(), way.squared());
        lemma_compare(zero(), way.squared());
        lemma_rod_point_seen(body, cylinder, t);
        assert forall|other: S|
            zero::<S>().at_most(other) && other.at_most(one()) implies from_line(
            rod_point(body, t),
            cylinder,
        ).at_most(from_line(#[trigger] rod_point(body, other), cylinder)) by {
            lemma_rod_point_seen(body, cylinder, other);
            lemma_closest_on_segment(start_radial, way, other);
        }
    }
}

/// In exact arithmetic a hub is clear of the cylinder after any number of contacts, but for
/// one whose centre was on its line.
pub proof fn lemma_hub_stays_clear<S: Scalar>(
    body: AffineBody<S>,
    previous: ControlPoints<S>,
    cylinder: CylinderCollider<S>,
    passes: nat,
)
    requires
        rooted::<S>(),
        zero::<S>().at_most(cylinder.radius),
        movable(body),
        body.kind is Hub,
        contact_epsilon::<S>().below(from_line(point_of(body, hub_center()), cylinder)),
        passes > 0,
    ensures
        ({
            let distance = cylinder.radius.plus(hub_radius());
            let after = cylinder_contacts(body, previous, cylinder, passes);
            distance.times(distance).at_most(from_line(point_of(after, hub_center()), cylinder))
        }),
{
    lemma_rooted::<S>();
    let next = cylinder_contact(body, previous, cylinder).0;
    lemma_hub_ends_clear(body, previous, cylinder);
    let radial = reject_from_x_axis(point_of(next, hub_center()).minus(cylinder.origin));
    lemma_flat(radial.y, radial.z);
    assert(next.kind == body.kind);
    assert(!cylinder_contact(next, previous, cylinder).1);
    lemma_contacts_stop(next, previous, cylinder, (passes - 1) as nat);
}

/// In exact arithmetic no free hub of a net is inside the cylinder after the contacts of a
/// round, but for one whose centre was on its line before them.
pub proof fn lemma_round_clears_hubs<S: Scalar>(setup: Setup<S>, motion: Motion<S>, hub: int)
    requires
        rooted::<S>(),
        setup.well_formed(),
        motion.well_formed(setup),
        setup.scene == DemoScene::CylinderDrape,
        setup.cylinder is Some,
        zero::<S>().at_most(setup.cylinder->0.radius),
        0 <= hub < hub_total(setup.grid_size as int),
        movable(motion.bodies[hub]),
        contact_epsilon::<S>().below(
            from_line(point_of(motion.bodies[hub], hub_center()), setup.cylinder->0),
        ),
    ensures
        ({
            let after = contacted(setup, motion).bodies[hub];
            let distance = setup.cylinder->0.radius.plus(hub_radius());
            distance.times(distance).at_most(
                from_line(point_of(after, hub_center()), setup.cylinder->0),
            )
        }),
{
    let n = setup.grid_size as int;
    lemma_counts(n);
    assert((motion.bodies[hub].kind, motion.bodies[hub].fixed) == layout(setup.scene, n, hub));
    lemma_hub_stays_clear(
        motion.bodies[hub],
        motion.previous[hub],
        setup.cylinder->0,
        CONTACT_PASSES as nat,
    );
}

/// The part of a rod that collides lies evenly about its middle and is 0.78 as long as the way
/// between its joints.
pub proof fn lemma_collider_of_rod<S: Scalar>(body: AffineBody<S>)
    requires
        exact::<S>(),
    ensures
        ({
            let (first, second) = rod_joint_endpoints(body.positions);
            let start = point_of(body, collider_start());
            let end = point_of(body, collider_end());
            &&& end.minus(start) == second.minus(first).scaled(S::single_fraction(78, 100))
            &&& start.plus(end) == first.plus(second)
        }),
{
    let (first, second) = rod_joint_endpoints(body.positions);
    let trim = rod_collider_trim::<S>();
    lemma_joint_point_of(body);
    lemma_interpolated_point(body, rod_start(), rod_end(), trim);
    lemma_interpolated_point(body, rod_start(), rod_end(), one::<S>().minus(trim));
    lemma_trimmed(first.x, second.x);
    lemma_trimmed(first.y, second.y);
    lemma_trimmed(first.z, second.z);
}

/// One coordinate of the part of a rod that collides.
proof fn lemma_trimmed<S: Scalar>(first: S, second: S)
    requires
        exact::<S>(),
    ensures
        ({
            let trim = rod_collider_trim::<S>();
            let way = second.minus(first);
            let start = first.plus(way.times(trim));
            let end = first.plus(way.times(one::<S>().minus(trim)));
            &&& end.minus(start) == way.times(rod_length_factor())
            &&& start.plus(end) == first.plus(second)
        }),
{
    let factor = rod_length_factor::<S>();
    let trim = rod_collider_trim::<S>();
    let way = second.minus(first);
    let cut = way.times(trim);
    let start = first.plus(cut);
    let end = first.plus(way.times(one::<S>().minus(trim)));
    lemma_trimmed_end(first, second, trim);
    assert(end == second.minus(cut));
    lemma_parts(one::<S>().minus(factor));
    assert(trim.plus(trim) == one::<S>().minus(factor));
    lemma_distribute_left(trim, trim, way);
    lemma_distribute_difference(one(), factor, way);
    lemma_one(way);
    assert(cut.plus(cut) == way.minus(way.times(factor)));
    lemma_take_two(second, cut, start);
    lemma_associate(cut, first, cut);
    lemma_commute(cut, first);
    lemma_associate(first, cut, cut);
    lemma_take_two(second, first, cut.plus(cut));
    let kept = way.times(factor);
    lemma_take_back(way, kept);
    lemma_difference(second, cut);
    lemma_exchange(first, cut, second, cut.negated());
    lemma_zero(cut);
    lemma_take_nothing(first.plus(second));
}

/// Taking away what is left without a part leaves the part.
proof fn lemma_take_back<S: Scalar>(whole: S, part: S)
    requires
        exact::<S>(),
    ensures
        whole.minus(whole.minus(part)) == part,
{
    lemma_turn_difference(whole, part);
    lemma_difference(whole, whole.minus(part));
    lemma_difference(part, whole);
    lemma_undo(part, whole);
}

/// The first of three vectors that is long enough to give a direction; the last where none is.
pub open spec fn leading<S: Scalar>(
    primary: Vec3<S>,
    secondary: Vec3<S>,
    fallback: Vec3<S>,
) -> Vec3<S> {
    if S::fraction(1, 1000000000000).below(primary.squared()) {
        primary
    } else if S::fraction(1, 1000000000000).below(secondary.squared()) {
        secondary
    } else {
        fallback
    }
}

/// Whether a unit vector has the direction of a vector.
pub open spec fn leads<S: Scalar>(normal: Vec3<S>, lead: Vec3<S>) -> bool {
    normal.squared() == one::<S>() && normal.scaled(lead.squared().root()) == lead
}

/// In exact arithmetic contacts push along the first vector that is long enough: the way
/// between two points, else the way between where they were, else a direction that is given.
pub proof fn lemma_push_leads<S: Scalar>(
    primary: Vec3<S>,
    secondary: Vec3<S>,
    fallback: Vec3<S>,
)
    requires
        rooted::<S>(),
        fallback.squared() != zero::<S>(),
    ensures
        ({
            let lead = leading(primary, secondary, fallback);
            &&& leads(safe_normal(primary, secondary, fallback), lead)
            &&& leads(parting_normal(primary, secondary, fallback), lead)
        }),
{
    lemma_rooted::<S>();
    let lead = leading(primary, secondary, fallback);
    let length = lead.squared().root();
    if contact_epsilon::<S>().below(primary.squared()) {
        lemma_above_epsilon(primary.squared());
    } else if contact_epsilon::<S>().below(secondary.squared()) {
        lemma_above_epsilon(secondary.squared());
    }
    lemma_unit_stretched(lead);
    lemma_direction(lead);
    lemma_unit_normal(lead);
    lemma_reciprocal(primary.x, length);
    lemma_reciprocal(primary.y, length);
    lemma_reciprocal(primary.z, length);
}

/// The point of a hub or rod that touches the cylinder, and how far it is from its surface.
pub open spec fn touching<S: Scalar>(
    body: AffineBody<S>,
    cylinder: CylinderCollider<S>,
) -> (Weights<S>, S) {
    match body.kind {
        BodyKind::Rod => (rod_contact_weights(body, cylinder), rod_radius::<S>()),
        _ => (hub_center(), hub_radius()),
    }
}

/// In exact arithmetic the cylinder pushes a point that it touches straight away from its
/// line, by as much as it is too close: along where it lies from the line, else along where it
/// lay before the step, else upwards.
pub proof fn lemma_push_out<S: Scalar>(
    body: AffineBody<S>,
    previous: ControlPoints<S>,
    cylinder: CylinderCollider<S>,
)
    requires
        rooted::<S>(),
        movable(body),
        cylinder_contact(body, previous, cylinder).1,
    ensures
        ({
            let (weights, radius) = touching(body, cylinder);
            let point = point_of(body, weights);
            let after = point_of(cylinder_contact(body, previous, cylinder).0, weights);
            let here = reject_from_x_axis(point.minus(cylinder.origin));
            let before = reject_from_x_axis(
                weighted_point(previous, weights).minus(cylinder.origin),
            );
            let lead = leading(here, before, Vec3 { x: zero(), y: one(), z: zero() });
            let missing = cylinder.radius.plus(radius).minus(here.squared().root());
            exists|normal: Vec3<S>|
                #[trigger] leads(normal, lead) && after == point.plus(normal.scaled(missing))
        }),
{
    lemma_rooted::<S>();
    let (weights, radius) = touching(body, cylinder);
    let start = point_of(body, collider_start());
    let start_radial = reject_from_x_axis(start.minus(cylinder.origin));
    let way = reject_from_x_axis(point_of(body, collider_end()).minus(start));
    let raw = start_radial.inner(way).negated().over(way.squared());
    let t = if contact_epsilon::<S>().below(way.squared()) {
        clamp_to_unit(raw)
    } else {
        half()
    };
    let point = point_of(body, weights);
    let here = reject_from_x_axis(point.minus(cylinder.origin));
    let before = reject_from_x_axis(weighted_point(previous, weights).minus(cylinder.origin));
    let up = Vec3 { x: zero::<S>(), y: one(), z: zero() };
    let missing = cylinder.radius.plus(radius).minus(here.squared().root());
    let normal = parting_normal(here, before, up);
    lemma_half::<S>();
    lemma_clamped(raw);
    lemma_rod_point_seen(body, cylinder, t);
    lemma_one(one::<S>());
    lemma_zero(zero::<S>());
    lemma_take_nothing(one::<S>());
    assert(up.squared() == one::<S>());
    lemma_push_leads(here, before, up);
    lemma_above_epsilon(inverse_weight(body, weights));
    lemma_static_push_resolves(body, weights, normal, missing);
    assert(cylinder_contact(body, previous, cylinder) == static_push(
        body,
        weights,
        normal,
        missing,
    ));
    let lead = leading(here, before, up);
    let after = point_of(cylinder_contact(body, previous, cylinder).0, weights);
    assert(after == point.plus(normal.scaled(missing)));
    assert(leads(normal, lead));
}

} // verus!
