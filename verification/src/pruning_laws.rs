//! Boxes only save time: in exact arithmetic passing over what lies outside of them changes
//! no contact.

use crate::attachment::{
    collider_end, collider_start, interpolate_weights, pair_contact, pair_contact_at, point_of,
};
use crate::balls::{
    ball_hub_distance, ball_net_push, ball_pair_distance, ball_pairs_from, ball_pass, ball_passes,
    ball_rod_distance, balls_net_contacts, bounds_of, broad_proxy, center_of, chunk_bounds,
    chunk_contacts, chunk_end, chunks_contacts, closest_parameter, detailed_proxy,
    lemma_chunks_contacts_move, net_body_contact, net_body_total, pair_fallback,
    point_outside_capsule_bounds, point_outside_expanded_bounds, rebuilt_maxima, rebuilt_minima,
    NetContact,
};
use crate::body::{hub_center, rod_joint_endpoints, rod_radius, AffineBody, ControlPoints};
use crate::constants::{
    ball_radius, hub_radius, rod_collider_trim, CONTACT_PASSES, CONTACT_PROXY_CHUNK_SIZE,
};
use crate::contact_laws::{lemma_interpolated_point, lemma_proxy_points, lemma_trimmed_end};
use crate::field::{
    exact, lemma_associate, lemma_commute, lemma_difference, lemma_negated_product, lemma_negation,
    lemma_parts, lemma_take_nothing, lemma_undo,
};
use crate::joints::{chunk_total, Attachment};
use crate::order::{
    lemma_add_both, lemma_between_high, lemma_between_low, lemma_chain, lemma_clamped,
    lemma_compare, lemma_far_vector, lemma_gap, lemma_half, lemma_magnitude, lemma_ordered_is_exact,
    lemma_part_of_sum, lemma_square_order, lemma_turn_difference, ordered,
};
use crate::reference::{ball_net_contact, ball_net_contacts_from};
use crate::scalar::{half, one, zero, Scalar};
use crate::vector::Vec3;
use vstd::prelude::*;

verus! {

/// Whether a point lies in a box.
pub open spec fn in_box<S: Scalar>(point: Vec3<S>, minimum: Vec3<S>, maximum: Vec3<S>) -> bool {
    &&& minimum.x.at_most(point.x) && point.x.at_most(maximum.x)
    &&& minimum.y.at_most(point.y) && point.y.at_most(maximum.y)
    &&& minimum.z.at_most(point.z) && point.z.at_most(maximum.z)
}

/// A box that has grown by a point holds the point and what it held before.
proof fn lemma_grown_box<S: Scalar>(
    point: Vec3<S>,
    added: Vec3<S>,
    minimum: Vec3<S>,
    maximum: Vec3<S>,
)
    requires
        ordered::<S>(),
    ensures
        in_box(added, minimum.lesser(added), maximum.greater(added)),
        in_box(point, minimum, maximum) ==> in_box(
            point,
            minimum.lesser(added),
            maximum.greater(added),
        ),
{
    lemma_grown_side(point.x, added.x, minimum.x, maximum.x);
    lemma_grown_side(point.y, added.y, minimum.y, maximum.y);
    lemma_grown_side(point.z, added.z, minimum.z, maximum.z);
}

proof fn lemma_grown_side<S: Scalar>(point: S, added: S, low: S, high: S)
    requires
        ordered::<S>(),
    ensures
        ({
            let lower = if low.below(added) {
                low
            } else {
                added
            };
            let higher = if added.below(high) {
                high
            } else {
                added
            };
            &&& lower.at_most(added) && added.at_most(higher)
            &&& low.at_most(point) ==> lower.at_most(point)
            &&& point.at_most(high) ==> point.at_most(higher)
        }),
{
    lemma_compare(low, added);
    lemma_compare(added, high);
    lemma_compare(added, added);
    if low.at_most(point) && added.at_most(low) {
        lemma_chain(added, low, point);
    }
    if point.at_most(high) && high.at_most(added) {
        lemma_chain(point, high, added);
    }
}

/// The box around a row of bodies holds the joint points of each of them.
proof fn lemma_bounds_hold<S: Scalar>(bodies: Seq<AffineBody<S>>, from: int, to: int, i: int)
    requires
        ordered::<S>(),
        from <= i < to,
    ensures
        ({
            let (minimum, maximum) = bounds_of(bodies, from, to);
            let (start, end) = broad_proxy(bodies[i]);
            in_box(start, minimum, maximum) && in_box(end, minimum, maximum)
        }),
    decreases to - from,
{
    let (minimum, maximum) = bounds_of(bodies, from, to - 1);
    let (last_start, last_end) = broad_proxy(bodies[to - 1]);
    let (start, end) = broad_proxy(bodies[i]);
    let (wider_minimum, wider_maximum) = (minimum.lesser(last_start), maximum.greater(last_start));
    if i < to - 1 {
        lemma_bounds_hold(bodies, from, to - 1, i);
    }
    lemma_grown_box(start, last_start, minimum, maximum);
    lemma_grown_box(end, last_start, minimum, maximum);
    lemma_grown_box(start, last_end, wider_minimum, wider_maximum);
    lemma_grown_box(end, last_end, wider_minimum, wider_maximum);
}

/// A point between two points of a box lies in it.
proof fn lemma_between_in_box<S: Scalar>(
    start: Vec3<S>,
    end: Vec3<S>,
    t: S,
    minimum: Vec3<S>,
    maximum: Vec3<S>,
)
    requires
        ordered::<S>(),
        in_box(start, minimum, maximum),
        in_box(end, minimum, maximum),
        zero::<S>().at_most(t),
        t.at_most(one()),
    ensures
        in_box(start.plus(end.minus(start).scaled(t)), minimum, maximum),
{
    lemma_between_low(minimum.x, start.x, end.x, t);
    lemma_between_low(minimum.y, start.y, end.y, t);
    lemma_between_low(minimum.z, start.z, end.z, t);
    lemma_between_high(maximum.x, start.x, end.x, t);
    lemma_between_high(maximum.y, start.y, end.y, t);
    lemma_between_high(maximum.z, start.z, end.z, t);
}

/// The part of one that a part of it leaves.
proof fn lemma_rest_of_one<S: Scalar>(t: S)
    requires
        ordered::<S>(),
        zero::<S>().at_most(t),
        t.at_most(one()),
    ensures
        zero::<S>().at_most(one::<S>().minus(t)),
        one::<S>().minus(t).at_most(one()),
{
    lemma_ordered_is_exact::<S>();
    lemma_gap(t, one());
    lemma_gap(one::<S>().minus(t), one());
    lemma_undo(t, one::<S>().minus(t));
    lemma_undo(one(), t);
    assert(t.plus(one::<S>().minus(t)) == one::<S>());
}

/// A box that holds the joint points of a net body holds the segment of it that collides.
proof fn lemma_detailed_in_box<S: Scalar>(
    body: AffineBody<S>,
    minimum: Vec3<S>,
    maximum: Vec3<S>,
)
    requires
        ordered::<S>(),
        in_box(broad_proxy(body).0, minimum, maximum),
        in_box(broad_proxy(body).1, minimum, maximum),
    ensures
        in_box(detailed_proxy(body).0, minimum, maximum),
        in_box(detailed_proxy(body).1, minimum, maximum),
{
    lemma_ordered_is_exact::<S>();
    let trim = rod_collider_trim::<S>();
    let (start, end) = rod_joint_endpoints(body.positions);
    if body.kind is Rod {
        lemma_rest_of_one(trim);
        lemma_between_in_box(start, end, trim, minimum, maximum);
        lemma_between_in_box(start, end, one::<S>().minus(trim), minimum, maximum);
        lemma_trimmed_end(start.x, end.x, trim);
        lemma_trimmed_end(start.y, end.y, trim);
        lemma_trimmed_end(start.z, end.z, trim);
    }
}

/// The chunk of a net body.
pub open spec fn chunk_of(body: int) -> int {
    body / (CONTACT_PROXY_CHUNK_SIZE as int)
}

/// Whether the box of every chunk holds the segments of its net bodies that collide.
pub open spec fn boxes_hold<S: Scalar>(
    bodies: Seq<AffineBody<S>>,
    chunk_min: Seq<Vec3<S>>,
    chunk_max: Seq<Vec3<S>>,
    net: int,
) -> bool {
    forall|i: int|
        #![trigger bodies[i]]
        0 <= i < net ==> in_box(
            detailed_proxy(bodies[i]).0,
            chunk_min[chunk_of(i)],
            chunk_max[chunk_of(i)],
        ) && in_box(
            detailed_proxy(bodies[i]).1,
            chunk_min[chunk_of(i)],
            chunk_max[chunk_of(i)],
        )
}

/// Boxes that are computed anew hold their bodies.
pub proof fn lemma_rebuilt_boxes_hold<S: Scalar>(
    bodies: Seq<AffineBody<S>>,
    balls: Seq<usize>,
    chunk_min: Seq<Vec3<S>>,
    chunk_max: Seq<Vec3<S>>,
)
    requires
        ordered::<S>(),
        chunk_total(net_body_total(balls, bodies.len())) <= chunk_min.len(),
        chunk_total(net_body_total(balls, bodies.len())) <= chunk_max.len(),
    ensures
        boxes_hold(
            bodies,
            rebuilt_minima(bodies, balls, chunk_min),
            rebuilt_maxima(bodies, balls, chunk_max),
            net_body_total(balls, bodies.len()),
        ),
{
    let net = net_body_total(balls, bodies.len());
    let minima = rebuilt_minima(bodies, balls, chunk_min);
    let maxima = rebuilt_maxima(bodies, balls, chunk_max);
    assert forall|i: int| #![trigger bodies[i]] 0 <= i < net implies in_box(
        detailed_proxy(bodies[i]).0,
        minima[chunk_of(i)],
        maxima[chunk_of(i)],
    ) && in_box(detailed_proxy(bodies[i]).1, minima[chunk_of(i)], maxima[chunk_of(i)]) by {
        let chunk = chunk_of(i);
        let (minimum, maximum) = chunk_bounds(bodies, chunk, net);
        lemma_bounds_hold(
            bodies,
            chunk * CONTACT_PROXY_CHUNK_SIZE,
            chunk_end(chunk, net),
            i,
        );
        lemma_detailed_in_box(bodies[i], minimum, maximum);
    }
}

/// One coordinate of a point outside a widened box.
proof fn lemma_beyond<S: Scalar>(sphere: S, point: S, low: S, high: S, margin: S)
    requires
        ordered::<S>(),
        low.at_most(point),
        point.at_most(high),
        sphere.at_most(low.minus(margin)) || high.plus(margin).at_most(sphere),
    ensures
        margin.at_most(sphere.minus(point)) || margin.at_most(sphere.minus(point).negated()),
{
    lemma_ordered_is_exact::<S>();
    lemma_turn_difference(sphere, point);
    if sphere.at_most(low.minus(margin)) {
        lemma_add_both(sphere, low.minus(margin), margin);
        lemma_undo(low, margin);
        lemma_chain(sphere.plus(margin), low, point);
        lemma_gap(sphere.plus(margin), point);
        lemma_gap(margin, point.minus(sphere));
        lemma_take_two(point, sphere, margin);
    } else {
        lemma_add_both(point, high, margin);
        lemma_chain(point.plus(margin), high.plus(margin), sphere);
        lemma_gap(point.plus(margin), sphere);
        lemma_gap(margin, sphere.minus(point));
        lemma_take_two(sphere, point, margin);
    }
}

/// Taking away a sum is taking away its terms.
pub proof fn lemma_take_two<S: Scalar>(a: S, b: S, c: S)
    requires
        exact::<S>(),
    ensures
        a.minus(b.plus(c)) == a.minus(b).minus(c),
{
    lemma_difference(a, b.plus(c));
    lemma_negation(b, c);
    lemma_associate(a, b.negated(), c.negated());
    lemma_difference(a, b);
    lemma_difference(a.minus(b), c);
}

/// A ball whose centre lies outside a widened box is far from every point of the box.
proof fn lemma_far_from_box<S: Scalar>(
    sphere: Vec3<S>,
    point: Vec3<S>,
    minimum: Vec3<S>,
    maximum: Vec3<S>,
    margin: S,
)
    requires
        ordered::<S>(),
        zero::<S>().at_most(margin),
        in_box(point, minimum, maximum),
        point_outside_expanded_bounds(sphere, minimum, maximum, margin),
    ensures
        margin.times(margin).at_most(sphere.minus(point).squared()),
{
    lemma_compare(sphere.x, minimum.x.minus(margin));
    lemma_compare(sphere.y, minimum.y.minus(margin));
    lemma_compare(sphere.z, minimum.z.minus(margin));
    lemma_compare(maximum.x.plus(margin), sphere.x);
    lemma_compare(maximum.y.plus(margin), sphere.y);
    lemma_compare(maximum.z.plus(margin), sphere.z);
    if sphere.x.below(minimum.x.minus(margin)) || maximum.x.plus(margin).below(sphere.x) {
        lemma_beyond(sphere.x, point.x, minimum.x, maximum.x, margin);
    } else if sphere.y.below(minimum.y.minus(margin)) || maximum.y.plus(margin).below(sphere.y) {
        lemma_beyond(sphere.y, point.y, minimum.y, maximum.y, margin);
    } else {
        lemma_beyond(sphere.z, point.z, minimum.z, maximum.z, margin);
    }
    lemma_far_vector(sphere.minus(point), margin);
}

/// The distances at which balls touch are not negative, and rods are touched no earlier than
/// hubs.
proof fn lemma_contact_distances<S: Scalar>()
    requires
        ordered::<S>(),
    ensures
        zero::<S>().at_most(ball_hub_distance()),
        zero::<S>().at_most(ball_rod_distance()),
        ball_rod_distance::<S>().at_most(ball_hub_distance()),
        ball_rod_distance::<S>().times(ball_rod_distance()).at_most(
            ball_hub_distance::<S>().times(ball_hub_distance()),
        ),
{
    lemma_ordered_is_exact::<S>();
    let rod = rod_radius::<S>();
    lemma_part_of_sum(ball_radius::<S>(), rod);
    lemma_add_both(rod, hub_radius(), ball_radius());
    lemma_chain(zero::<S>(), ball_rod_distance(), ball_hub_distance());
    lemma_square_order(ball_rod_distance::<S>(), ball_hub_distance());
}

/// The point of a segment that is closest to another point lies between its ends.
proof fn lemma_parameter_in_unit<S: Scalar>(
    point: Vec3<S>,
    start: Vec3<S>,
    direction: Vec3<S>,
)
    requires
        ordered::<S>(),
    ensures
        zero::<S>().at_most(closest_parameter(point, start, direction)),
        closest_parameter(point, start, direction).at_most(one()),
{
    lemma_half::<S>();
    lemma_clamped(point.minus(start).inner(direction).over(direction.squared()));
}

/// The end of a segment that reaches to both sides of its middle.
proof fn lemma_reach<S: Scalar>(start: S, direction: S)
    requires
        ordered::<S>(),
    ensures
        ({
            let middle = start.plus(direction.times(half()));
            let reach = direction.magnitude().times(half());
            let low = middle.minus(reach);
            let high = middle.plus(reach);
            if zero::<S>().at_most(direction) {
                low == start && high == start.plus(direction)
            } else {
                low == start.plus(direction) && high == start
            }
        }),
{
    lemma_ordered_is_exact::<S>();
    let part = direction.times(half());
    let middle = start.plus(part);
    lemma_magnitude(direction);
    lemma_parts(direction);
    lemma_undo(start, part);
    lemma_associate(start, part, part);
    lemma_negated_product(direction, half());
    lemma_difference(middle, part);
    lemma_difference(middle, part.negated());
    lemma_negation(part, part);
}

/// One coordinate of a point outside the box around a capsule.
pub proof fn lemma_beyond_capsule<S: Scalar>(point: S, start: S, direction: S, radius: S, t: S)
    requires
        ordered::<S>(),
        zero::<S>().at_most(t),
        t.at_most(one()),
        direction.magnitude().times(half()).plus(radius).below(
            point.minus(start.plus(direction.times(half()))).magnitude(),
        ),
    ensures
        ({
            let away = point.minus(start.plus(direction.times(t)));
            radius.at_most(away) || radius.at_most(away.negated())
        }),
{
    lemma_ordered_is_exact::<S>();
    let end = start.plus(direction);
    let middle = start.plus(direction.times(half()));
    let reach = direction.magnitude().times(half());
    let low = middle.minus(reach);
    let high = middle.plus(reach);
    let here = start.plus(direction.times(t));
    lemma_reach(start, direction);
    lemma_undo(direction, start);
    assert(low.at_most(here) && here.at_most(high)) by {
        lemma_compare(zero(), direction);
        lemma_compare(start, start);
        lemma_compare(end, end);
        lemma_take_nothing(start);
        if zero::<S>().at_most(direction) {
            lemma_add_both(zero(), direction, start);
        } else {
            lemma_add_both(direction, zero(), start);
        }
        lemma_between_low(low, start, end, t);
        lemma_between_high(high, start, end, t);
    }
    let away = point.minus(middle);
    lemma_compare(reach.plus(radius), away.magnitude());
    lemma_magnitude(away);
    if zero::<S>().at_most(away) {
        lemma_add_both(reach.plus(radius), away, middle);
        lemma_undo(point, middle);
        lemma_associate(middle, reach, radius);
    } else {
        lemma_turn_difference(point, middle);
        lemma_gap(reach.plus(radius), middle.minus(point));
        lemma_take_two(middle, point, reach.plus(radius));
        lemma_commute(point, reach.plus(radius));
        lemma_take_two(middle, reach.plus(radius), point);
        lemma_take_two(middle, reach, radius);
        lemma_gap(point, low.minus(radius));
    }
    lemma_beyond(point, here, low, high, radius);
}

/// A ball whose centre lies outside the box around a rod is far from every point of the rod.
pub proof fn lemma_far_from_capsule<S: Scalar>(
    sphere: Vec3<S>,
    start: Vec3<S>,
    direction: Vec3<S>,
    radius: S,
    t: S,
)
    requires
        ordered::<S>(),
        zero::<S>().at_most(radius),
        zero::<S>().at_most(t),
        t.at_most(one()),
        point_outside_capsule_bounds(sphere, start, direction, radius),
    ensures
        radius.times(radius).at_most(
            sphere.minus(start.plus(direction.scaled(t))).squared(),
        ),
{
    let middle = start.plus(direction.scaled(half()));
    let reach = direction.magnitudes().scaled(half()).plus(Vec3::all(radius));
    let away = sphere.minus(middle).magnitudes();
    if reach.x.below(away.x) {
        lemma_beyond_capsule(sphere.x, start.x, direction.x, radius, t);
    } else if reach.y.below(away.y) {
        lemma_beyond_capsule(sphere.y, start.y, direction.y, radius, t);
    } else {
        lemma_beyond_capsule(sphere.z, start.z, direction.z, radius, t);
    }
    lemma_far_vector(sphere.minus(start.plus(direction.scaled(t))), radius);
}

/// Points that are far enough apart are not pushed.
proof fn lemma_no_push<S: Scalar>(
    bodies: Seq<AffineBody<S>>,
    previous: Seq<ControlPoints<S>>,
    a: Attachment<S>,
    b: Attachment<S>,
    a_position: Vec3<S>,
    b_position: Vec3<S>,
    minimum_distance: S,
    fallback: Vec3<S>,
)
    requires
        a.body < bodies.len(),
        b.body < bodies.len(),
        minimum_distance.times(minimum_distance).at_most(a_position.minus(b_position).squared()),
    ensures
        pair_contact_at(
            bodies,
            previous,
            a,
            b,
            a_position,
            b_position,
            minimum_distance,
            fallback,
        ) == (bodies, false),
{
    let (i, j) = (a.body as int, b.body as int);
    assert(bodies.update(i, bodies[i]).update(j, bodies[j]) =~= bodies);
}

/// The contact of a ball with a net body in a box that the ball is outside of.
proof fn lemma_outside_untouched<S: Scalar>(
    bodies: Seq<AffineBody<S>>,
    previous: Seq<ControlPoints<S>>,
    sphere: Vec3<S>,
    ball: usize,
    body: usize,
    minimum: Vec3<S>,
    maximum: Vec3<S>,
)
    requires
        ordered::<S>(),
        ball < bodies.len(),
        body < bodies.len(),
        in_box(detailed_proxy(bodies[body as int]).0, minimum, maximum),
        in_box(detailed_proxy(bodies[body as int]).1, minimum, maximum),
        point_outside_expanded_bounds(sphere, minimum, maximum, ball_hub_distance()),
    ensures
        ball_net_push(bodies, previous, sphere, ball, body) == (bodies, false),
{
    let (start, end) = detailed_proxy(bodies[body as int]);
    let direction = end.minus(start);
    let t = closest_parameter(sphere, start, direction);
    let here = start.plus(direction.scaled(t));
    lemma_contact_distances::<S>();
    lemma_far_from_box(sphere, start, minimum, maximum, ball_hub_distance());
    lemma_no_push(
        bodies,
        previous,
        center_of(ball),
        center_of(body),
        sphere,
        start,
        ball_hub_distance(),
        Vec3::y_unit(),
    );
    lemma_parameter_in_unit(sphere, start, direction);
    lemma_between_in_box(start, end, t, minimum, maximum);
    lemma_far_from_box(sphere, here, minimum, maximum, ball_hub_distance());
    lemma_chain(
        ball_rod_distance::<S>().times(ball_rod_distance()),
        ball_hub_distance::<S>().times(ball_hub_distance()),
        sphere.minus(here).squared(),
    );
    lemma_no_push(
        bodies,
        previous,
        center_of(ball),
        Attachment { body, weights: interpolate_weights(collider_start(), collider_end(), t) },
        sphere,
        here,
        ball_rod_distance(),
        Vec3::y_unit(),
    );
}

/// In exact arithmetic the contact of a ball with a net body is the same whether the box
/// around a rod is looked at first or not.
pub proof fn lemma_push_is_contact<S: Scalar>(
    bodies: Seq<AffineBody<S>>,
    previous: Seq<ControlPoints<S>>,
    ball: usize,
    body: usize,
)
    requires
        ordered::<S>(),
        ball < bodies.len(),
        body < bodies.len(),
    ensures
        ball_net_push(
            bodies,
            previous,
            point_of(bodies[ball as int], hub_center()),
            ball,
            body,
        ).0 == ball_net_contact(bodies, previous, ball, body),
{
    lemma_ordered_is_exact::<S>();
    let net_body = bodies[body as int];
    let sphere = point_of(bodies[ball as int], hub_center());
    let (start, end) = detailed_proxy(net_body);
    let direction = end.minus(start);
    let t = closest_parameter(sphere, start, direction);
    lemma_proxy_points(net_body);
    lemma_interpolated_point(net_body, collider_start(), collider_end(), t);
    if net_body.kind is Rod && point_outside_capsule_bounds(
        sphere,
        start,
        direction,
        ball_rod_distance(),
    ) {
        lemma_contact_distances::<S>();
        lemma_parameter_in_unit(sphere, start, direction);
        lemma_far_from_capsule(sphere, start, direction, ball_rod_distance(), t);
        lemma_no_push(
            bodies,
            previous,
            center_of(ball),
            Attachment { body, weights: interpolate_weights(collider_start(), collider_end(), t) },
            sphere,
            start.plus(direction.scaled(t)),
            ball_rod_distance(),
            Vec3::y_unit(),
        );
    }
}

/// The contacts of one ball with the net bodies from `body` up to but not at `end`, with none
/// of them passed over.
pub open spec fn plain_contacts<S: Scalar>(
    bodies: Seq<AffineBody<S>>,
    previous: Seq<ControlPoints<S>>,
    ball: usize,
    body: int,
    end: int,
) -> Seq<AffineBody<S>>
    decreases end - body,
{
    if body >= end {
        bodies
    } else {
        plain_contacts(
            ball_net_contact(bodies, previous, ball, body as usize),
            previous,
            ball,
            body + 1,
            end,
        )
    }
}

proof fn lemma_plain_contacts_split<S: Scalar>(
    bodies: Seq<AffineBody<S>>,
    previous: Seq<ControlPoints<S>>,
    ball: usize,
    body: int,
    middle: int,
    end: int,
)
    requires
        body <= middle <= end,
    ensures
        plain_contacts(bodies, previous, ball, body, end) == plain_contacts(
            plain_contacts(bodies, previous, ball, body, middle),
            previous,
            ball,
            middle,
            end,
        ),
    decreases middle - body,
{
    if body < middle {
        let next = ball_net_contact(bodies, previous, ball, body as usize);
        lemma_plain_contacts_split(next, previous, ball, body + 1, middle, end);
    }
}

/// The contacts of the ball with the given number are those of one ball.
proof fn lemma_plain_contacts_of_number<S: Scalar>(
    bodies: Seq<AffineBody<S>>,
    previous: Seq<ControlPoints<S>>,
    balls: Seq<usize>,
    net: int,
    number: int,
    body: int,
)
    requires
        0 <= number < balls.len(),
        0 <= body,
    ensures
        ball_net_contacts_from(bodies, previous, balls, net, number, body)
            == ball_net_contacts_from(
            plain_contacts(bodies, previous, balls[number], body, net),
            previous,
            balls,
            net,
            number + 1,
            0,
        ),
    decreases net - body,
{
    if body < net {
        let next = ball_net_contact(bodies, previous, balls[number], body as usize);
        lemma_plain_contacts_of_number(next, previous, balls, net, number, body + 1);
    }
}

/// Whether the ball in hand is where the contacts take it to be, and the boxes hold the net.
spec fn contact_sound<S: Scalar>(state: NetContact<S>, ball: usize, net: int) -> bool {
    &&& 0 <= net <= ball < state.bodies.len() <= usize::MAX
    &&& chunk_total(net) <= state.chunk_min.len()
    &&& chunk_total(net) <= state.chunk_max.len()
    &&& state.sphere == point_of(state.bodies[ball as int], hub_center())
    &&& boxes_hold(state.bodies, state.chunk_min, state.chunk_max, net)
}

/// The other bodies stay where a ball meets a net body, and both do where nothing is pushed.
proof fn lemma_push_is_local<S: Scalar>(
    bodies: Seq<AffineBody<S>>,
    previous: Seq<ControlPoints<S>>,
    sphere: Vec3<S>,
    ball: usize,
    body: usize,
)
    requires
        ball < bodies.len(),
        body < bodies.len(),
    ensures
        ({
            let (after, applied) = ball_net_push(bodies, previous, sphere, ball, body);
            &&& after.len() == bodies.len()
            &&& !applied ==> after == bodies
            &&& forall|i: int|
                0 <= i < bodies.len() && i != ball && i != body ==> (#[trigger] after[i])
                    == bodies[i]
        }),
{
    let (after, applied) = ball_net_push(bodies, previous, sphere, ball, body);
    if !applied {
        assert(after =~= bodies);
    }
}

/// A push leaves boxes that hold the net.
proof fn lemma_push_keeps_boxes<S: Scalar>(
    state: NetContact<S>,
    previous: Seq<ControlPoints<S>>,
    ball: usize,
    body: usize,
    net: int,
)
    requires
        ordered::<S>(),
        contact_sound(state, ball, net),
        body < net,
    ensures
        contact_sound(
            net_body_contact(state, previous, ball, chunk_of(body as int), body),
            ball,
            net,
        ),
{
    let chunk = chunk_of(body as int);
    let after = net_body_contact(state, previous, ball, chunk, body);
    lemma_push_is_local(state.bodies, previous, state.sphere, ball, body);
    let (bodies, applied) = ball_net_push(state.bodies, previous, state.sphere, ball, body);
    if applied {
        let (start, end) = detailed_proxy(bodies[body as int]);
        let (low, high) = (state.chunk_min[chunk], state.chunk_max[chunk]);
        let (lower, higher) = (low.lesser(start), high.greater(start));
        assert forall|i: int| #![trigger bodies[i]] 0 <= i < net implies in_box(
            detailed_proxy(bodies[i]).0,
            after.chunk_min[chunk_of(i)],
            after.chunk_max[chunk_of(i)],
        ) && in_box(
            detailed_proxy(bodies[i]).1,
            after.chunk_min[chunk_of(i)],
            after.chunk_max[chunk_of(i)],
        ) by {
            let (first, second) = detailed_proxy(bodies[i]);
            if i != body {
                assert(bodies[i] == state.bodies[i]);
            }
            if chunk_of(i) == chunk {
                lemma_grown_box(first, start, low, high);
                lemma_grown_box(second, start, low, high);
                lemma_grown_box(first, end, lower, higher);
                lemma_grown_box(second, end, lower, higher);
            }
        }
    }
}

/// The contacts with the bodies of a chunk.
proof fn lemma_chunk_agrees<S: Scalar>(
    state: NetContact<S>,
    previous: Seq<ControlPoints<S>>,
    ball: usize,
    chunk: int,
    body: int,
    end: int,
    net: int,
)
    requires
        ordered::<S>(),
        contact_sound(state, ball, net),
        0 <= chunk,
        chunk * CONTACT_PROXY_CHUNK_SIZE <= body,
        end <= chunk_end(chunk, net),
    ensures
        ({
            let after = chunk_contacts(state, previous, ball, chunk, body, end);
            &&& contact_sound(after, ball, net)
            &&& after.bodies == plain_contacts(state.bodies, previous, ball, body, end)
        }),
    decreases end - body,
{
    if body < end {
        assert(chunk_of(body) == chunk);
        lemma_push_keeps_boxes(state, previous, ball, body as usize, net);
        lemma_push_is_contact(state.bodies, previous, ball, body as usize);
        let next = net_body_contact(state, previous, ball, chunk, body as usize);
        lemma_chunk_agrees(next, previous, ball, chunk, body + 1, end, net);
    }
}

/// The contacts with the bodies of a chunk that is passed over.
proof fn lemma_skipped_chunk<S: Scalar>(
    state: NetContact<S>,
    previous: Seq<ControlPoints<S>>,
    ball: usize,
    chunk: int,
    body: int,
    end: int,
    net: int,
)
    requires
        ordered::<S>(),
        contact_sound(state, ball, net),
        0 <= chunk,
        chunk * CONTACT_PROXY_CHUNK_SIZE <= body,
        end <= chunk_end(chunk, net),
        point_outside_expanded_bounds(
            state.sphere,
            state.chunk_min[chunk],
            state.chunk_max[chunk],
            ball_hub_distance(),
        ),
    ensures
        plain_contacts(state.bodies, previous, ball, body, end) == state.bodies,
    decreases end - body,
{
    if body < end {
        assert(chunk_of(body) == chunk);
        let bodies = state.bodies;
        assert(in_box(
            detailed_proxy(bodies[body]).0,
            state.chunk_min[chunk],
            state.chunk_max[chunk],
        ));
        lemma_outside_untouched(
            bodies,
            previous,
            state.sphere,
            ball,
            body as usize,
            state.chunk_min[chunk],
            state.chunk_max[chunk],
        );
        lemma_push_is_contact(bodies, previous, ball, body as usize);
        lemma_skipped_chunk(state, previous, ball, chunk, body + 1, end, net);
    }
}

/// The contacts of one ball with the chunks from `chunk` on.
proof fn lemma_chunks_agree<S: Scalar>(
    state: NetContact<S>,
    previous: Seq<ControlPoints<S>>,
    ball: usize,
    chunk: int,
    net: int,
)
    requires
        ordered::<S>(),
        contact_sound(state, ball, net),
        0 <= chunk,
        chunk < chunk_total(net) ==> chunk * CONTACT_PROXY_CHUNK_SIZE < net,
    ensures
        ({
            let after = chunks_contacts(state, previous, ball, chunk, net);
            &&& contact_sound(after, ball, net)
            &&& after.bodies == plain_contacts(
                state.bodies,
                previous,
                ball,
                chunk * CONTACT_PROXY_CHUNK_SIZE,
                net,
            )
        }),
    decreases chunk_total(net) - chunk,
{
    let first = chunk * CONTACT_PROXY_CHUNK_SIZE;
    if chunk < chunk_total(net) {
        let end = chunk_end(chunk, net);
        let next_first = (chunk + 1) * CONTACT_PROXY_CHUNK_SIZE;
        lemma_plain_contacts_split(state.bodies, previous, ball, first, end, net);
        let next = if point_outside_expanded_bounds(
            state.sphere,
            state.chunk_min[chunk],
            state.chunk_max[chunk],
            ball_hub_distance(),
        ) {
            lemma_skipped_chunk(state, previous, ball, chunk, first, end, net);
            state
        } else {
            lemma_chunk_agrees(state, previous, ball, chunk, first, end, net);
            chunk_contacts(state, previous, ball, chunk, first, end)
        };
        lemma_chunks_agree(next, previous, ball, chunk + 1, net);
    }
}

/// The contacts of the balls with the numbers from `number` on with the net.
proof fn lemma_balls_agree<S: Scalar>(
    bodies: Seq<AffineBody<S>>,
    chunk_min: Seq<Vec3<S>>,
    chunk_max: Seq<Vec3<S>>,
    previous: Seq<ControlPoints<S>>,
    balls: Seq<usize>,
    number: int,
)
    requires
        ordered::<S>(),
        balls_behind_net(bodies, balls),
        0 <= number,
        chunk_total(net_body_total(balls, bodies.len())) <= chunk_min.len(),
        chunk_total(net_body_total(balls, bodies.len())) <= chunk_max.len(),
        boxes_hold(bodies, chunk_min, chunk_max, net_body_total(balls, bodies.len())),
    ensures
        ({
            let net = net_body_total(balls, bodies.len());
            let after = balls_net_contacts(bodies, chunk_min, chunk_max, previous, balls, number);
            &&& after.0 == ball_net_contacts_from(bodies, previous, balls, net, number, 0)
            &&& after.0.len() == bodies.len()
            &&& chunk_total(net) <= after.1.len()
            &&& chunk_total(net) <= after.2.len()
            &&& boxes_hold(after.0, after.1, after.2, net)
        }),
    decreases balls.len() - number,
{
    if number < balls.len() {
        let net = net_body_total(balls, bodies.len());
        let ball = balls[number];
        let state = NetContact {
            bodies,
            chunk_min,
            chunk_max,
            sphere: point_of(bodies[ball as int], hub_center()),
        };
        lemma_chunks_contacts_move(state, previous, ball, 0, net);
        lemma_chunks_agree(state, previous, ball, 0, net);
        lemma_plain_contacts_of_number(bodies, previous, balls, net, number, 0);
        let next = chunks_contacts(state, previous, ball, 0, net);
        lemma_balls_agree(
            next.bodies,
            next.chunk_min,
            next.chunk_max,
            previous,
            balls,
            number + 1,
        );
    }
}

/// Whether no coordinate of a point is above that of another.
pub open spec fn not_above<S: Scalar>(lower: Vec3<S>, upper: Vec3<S>) -> bool {
    &&& lower.x.at_most(upper.x)
    &&& lower.y.at_most(upper.y)
    &&& lower.z.at_most(upper.z)
}

/// Whether there are as many boxes as before, and each reaches at least as far on every side.
pub open spec fn boxes_grow<S: Scalar>(
    old_min: Seq<Vec3<S>>,
    old_max: Seq<Vec3<S>>,
    new_min: Seq<Vec3<S>>,
    new_max: Seq<Vec3<S>>,
) -> bool {
    &&& new_min.len() == old_min.len()
    &&& new_max.len() == old_max.len()
    &&& forall|chunk: int|
        0 <= chunk < old_min.len() ==> not_above(#[trigger] new_min[chunk], old_min[chunk])
    &&& forall|chunk: int|
        0 <= chunk < old_max.len() ==> not_above(old_max[chunk], #[trigger] new_max[chunk])
}

proof fn lemma_not_above_itself<S: Scalar>(point: Vec3<S>)
    requires
        ordered::<S>(),
    ensures
        not_above(point, point),
{
    lemma_compare(point.x, point.x);
    lemma_compare(point.y, point.y);
    lemma_compare(point.z, point.z);
}

proof fn lemma_not_above_chain<S: Scalar>(a: Vec3<S>, b: Vec3<S>, c: Vec3<S>)
    requires
        ordered::<S>(),
        not_above(a, b),
        not_above(b, c),
    ensures
        not_above(a, c),
{
    lemma_chain(a.x, b.x, c.x);
    lemma_chain(a.y, b.y, c.y);
    lemma_chain(a.z, b.z, c.z);
}

proof fn lemma_boxes_grow_by_nothing<S: Scalar>(chunk_min: Seq<Vec3<S>>, chunk_max: Seq<Vec3<S>>)
    requires
        ordered::<S>(),
    ensures
        boxes_grow(chunk_min, chunk_max, chunk_min, chunk_max),
{
    assert forall|chunk: int| 0 <= chunk < chunk_min.len() implies not_above(
        #[trigger] chunk_min[chunk],
        chunk_min[chunk],
    ) by {
        lemma_not_above_itself(chunk_min[chunk]);
    }
    assert forall|chunk: int| 0 <= chunk < chunk_max.len() implies not_above(
        chunk_max[chunk],
        #[trigger] chunk_max[chunk],
    ) by {
        lemma_not_above_itself(chunk_max[chunk]);
    }
}

/// Boxes that grew and grew again have grown.
proof fn lemma_boxes_grow_on<S: Scalar>(
    first: (Seq<Vec3<S>>, Seq<Vec3<S>>),
    second: (Seq<Vec3<S>>, Seq<Vec3<S>>),
    third: (Seq<Vec3<S>>, Seq<Vec3<S>>),
)
    requires
        ordered::<S>(),
        boxes_grow(first.0, first.1, second.0, second.1),
        boxes_grow(second.0, second.1, third.0, third.1),
    ensures
        boxes_grow(first.0, first.1, third.0, third.1),
{
    assert forall|chunk: int| 0 <= chunk < first.0.len() implies not_above(
        #[trigger] third.0[chunk],
        first.0[chunk],
    ) by {
        lemma_not_above_chain(third.0[chunk], second.0[chunk], first.0[chunk]);
    }
    assert forall|chunk: int| 0 <= chunk < first.1.len() implies not_above(
        first.1[chunk],
        #[trigger] third.1[chunk],
    ) by {
        lemma_not_above_chain(first.1[chunk], second.1[chunk], third.1[chunk]);
    }
}

/// A box that takes in a point reaches at least as far as it did.
proof fn lemma_corners_grow<S: Scalar>(added: Vec3<S>, minimum: Vec3<S>, maximum: Vec3<S>)
    requires
        ordered::<S>(),
    ensures
        not_above(minimum.lesser(added), minimum),
        not_above(maximum, maximum.greater(added)),
{
    lemma_not_above_itself(minimum);
    lemma_not_above_itself(maximum);
    lemma_grown_side(minimum.x, added.x, minimum.x, maximum.x);
    lemma_grown_side(minimum.y, added.y, minimum.y, maximum.y);
    lemma_grown_side(minimum.z, added.z, minimum.z, maximum.z);
    lemma_grown_side(maximum.x, added.x, minimum.x, maximum.x);
    lemma_grown_side(maximum.y, added.y, minimum.y, maximum.y);
    lemma_grown_side(maximum.z, added.z, minimum.z, maximum.z);
}

proof fn lemma_net_body_contact_grows<S: Scalar>(
    state: NetContact<S>,
    previous: Seq<ControlPoints<S>>,
    ball: usize,
    chunk: int,
    body: usize,
)
    requires
        ordered::<S>(),
        0 <= chunk < state.chunk_min.len(),
        chunk < state.chunk_max.len(),
    ensures
        ({
            let after = net_body_contact(state, previous, ball, chunk, body);
            boxes_grow(state.chunk_min, state.chunk_max, after.chunk_min, after.chunk_max)
        }),
{
    let (bodies, applied) = ball_net_push(state.bodies, previous, state.sphere, ball, body);
    lemma_boxes_grow_by_nothing(state.chunk_min, state.chunk_max);
    if applied {
        let (start, end) = detailed_proxy(bodies[body as int]);
        let (low, high) = (state.chunk_min[chunk], state.chunk_max[chunk]);
        let (lower, higher) = (low.lesser(start), high.greater(start));
        lemma_corners_grow(start, low, high);
        lemma_corners_grow(end, lower, higher);
        lemma_not_above_chain(lower.lesser(end), lower, low);
        lemma_not_above_chain(high, higher, higher.greater(end));
    }
}

proof fn lemma_chunk_contacts_grow<S: Scalar>(
    state: NetContact<S>,
    previous: Seq<ControlPoints<S>>,
    ball: usize,
    chunk: int,
    body: int,
    end: int,
)
    requires
        ordered::<S>(),
        0 <= chunk < state.chunk_min.len(),
        chunk < state.chunk_max.len(),
    ensures
        ({
            let after = chunk_contacts(state, previous, ball, chunk, body, end);
            boxes_grow(state.chunk_min, state.chunk_max, after.chunk_min, after.chunk_max)
        }),
    decreases end - body,
{
    if body < end {
        let next = net_body_contact(state, previous, ball, chunk, body as usize);
        let after = chunk_contacts(next, previous, ball, chunk, body + 1, end);
        lemma_net_body_contact_grows(state, previous, ball, chunk, body as usize);
        lemma_chunk_contacts_grow(next, previous, ball, chunk, body + 1, end);
        lemma_boxes_grow_on(
            (state.chunk_min, state.chunk_max),
            (next.chunk_min, next.chunk_max),
            (after.chunk_min, after.chunk_max),
        );
    } else {
        lemma_boxes_grow_by_nothing(state.chunk_min, state.chunk_max);
    }
}

proof fn lemma_chunks_contacts_grow<S: Scalar>(
    state: NetContact<S>,
    previous: Seq<ControlPoints<S>>,
    ball: usize,
    chunk: int,
    net: int,
)
    requires
        ordered::<S>(),
        0 <= chunk,
        chunk_total(net) <= state.chunk_min.len(),
        chunk_total(net) <= state.chunk_max.len(),
    ensures
        ({
            let after = chunks_contacts(state, previous, ball, chunk, net);
            boxes_grow(state.chunk_min, state.chunk_max, after.chunk_min, after.chunk_max)
        }),
    decreases chunk_total(net) - chunk,
{
    if chunk < chunk_total(net) {
        let first = chunk * CONTACT_PROXY_CHUNK_SIZE;
        let end = chunk_end(chunk, net);
        let next = chunk_contacts(state, previous, ball, chunk, first, end);
        let after = chunks_contacts(next, previous, ball, chunk + 1, net);
        lemma_chunk_contacts_grow(state, previous, ball, chunk, first, end);
        lemma_chunks_contacts_grow(state, previous, ball, chunk + 1, net);
        lemma_chunks_contacts_grow(next, previous, ball, chunk + 1, net);
        lemma_boxes_grow_on(
            (state.chunk_min, state.chunk_max),
            (next.chunk_min, next.chunk_max),
            (after.chunk_min, after.chunk_max),
        );
    } else {
        lemma_boxes_grow_by_nothing(state.chunk_min, state.chunk_max);
    }
}

/// The contacts of balls with the net only grow boxes: in exact arithmetic no lower corner is
/// above where it was, and no upper corner below.
pub proof fn lemma_boxes_only_grow<S: Scalar>(
    bodies: Seq<AffineBody<S>>,
    chunk_min: Seq<Vec3<S>>,
    chunk_max: Seq<Vec3<S>>,
    previous: Seq<ControlPoints<S>>,
    balls: Seq<usize>,
    number: int,
)
    requires
        ordered::<S>(),
        0 <= number,
        chunk_total(net_body_total(balls, bodies.len())) <= chunk_min.len(),
        chunk_total(net_body_total(balls, bodies.len())) <= chunk_max.len(),
    ensures
        ({
            let after = balls_net_contacts(bodies, chunk_min, chunk_max, previous, balls, number);
            boxes_grow(chunk_min, chunk_max, after.1, after.2)
        }),
    decreases balls.len() - number,
{
    if number < balls.len() {
        let net = net_body_total(balls, bodies.len());
        let ball = balls[number];
        let state = NetContact {
            bodies,
            chunk_min,
            chunk_max,
            sphere: point_of(bodies[ball as int], hub_center()),
        };
        let next = chunks_contacts(state, previous, ball, 0, net);
        let after = balls_net_contacts(
            next.bodies,
            next.chunk_min,
            next.chunk_max,
            previous,
            balls,
            number + 1,
        );
        lemma_chunks_contacts_grow(state, previous, ball, 0, net);
        lemma_boxes_only_grow(
            next.bodies,
            next.chunk_min,
            next.chunk_max,
            previous,
            balls,
            number + 1,
        );
        lemma_boxes_grow_on(
            (chunk_min, chunk_max),
            (next.chunk_min, next.chunk_max),
            (after.1, after.2),
        );
    } else {
        lemma_boxes_grow_by_nothing(chunk_min, chunk_max);
    }
}

/// Whether the balls come after the net in the list of bodies.
pub open spec fn balls_behind_net<S: Scalar>(
    bodies: Seq<AffineBody<S>>,
    balls: Seq<usize>,
) -> bool {
    &&& bodies.len() <= usize::MAX
    &&& forall|i: int|
        0 <= i < balls.len() ==> balls[0] <= (#[trigger] balls[i]) < bodies.len()
}

/// Contacts between balls leave the net where it is.
proof fn lemma_pairs_leave_net<S: Scalar>(
    bodies: Seq<AffineBody<S>>,
    previous: Seq<ControlPoints<S>>,
    balls: Seq<usize>,
    first: int,
    second: int,
)
    requires
        balls_behind_net(bodies, balls),
        0 <= first < second,
    ensures
        ({
            let after = ball_pairs_from(bodies, previous, balls, first, second);
            &&& after.len() == bodies.len()
            &&& forall|i: int|
                0 <= i < net_body_total(balls, bodies.len()) ==> (#[trigger] after[i])
                    == bodies[i]
        }),
    decreases balls.len() - first, balls.len() - second,
{
    if first >= balls.len() {
    } else if second >= balls.len() {
        lemma_pairs_leave_net(bodies, previous, balls, first + 1, first + 2);
    } else {
        let a = center_of(balls[first]);
        let b = center_of(balls[second]);
        let next = pair_contact(
            bodies,
            previous,
            a,
            b,
            ball_pair_distance(),
            pair_fallback(((first + second) % 3) as usize),
        );
        assert(balls[0] <= balls[first] && balls[0] <= balls[second]);
        lemma_pairs_leave_net(next, previous, balls, first, second + 1);
        let after = ball_pairs_from(bodies, previous, balls, first, second);
        assert forall|i: int| 0 <= i < net_body_total(balls, bodies.len()) implies (
        #[trigger] after[i]) == bodies[i] by {
            assert(after[i] == next[i]);
        }
    }
}

/// All ball contacts, with every net body looked at for every ball.
pub open spec fn uncached_pass<S: Scalar>(
    bodies: Seq<AffineBody<S>>,
    previous: Seq<ControlPoints<S>>,
    balls: Seq<usize>,
) -> Seq<AffineBody<S>> {
    ball_net_contacts_from(
        ball_pairs_from(bodies, previous, balls, 0, 1),
        previous,
        balls,
        net_body_total(balls, bodies.len()),
        0,
        0,
    )
}

/// In exact arithmetic a pass of the ball contacts moves the bodies as if every net body were
/// looked at for every ball, whether the boxes are computed anew or still hold the net; and
/// they hold it afterwards.
pub proof fn lemma_boxes_change_nothing<S: Scalar>(
    bodies: Seq<AffineBody<S>>,
    chunk_min: Seq<Vec3<S>>,
    chunk_max: Seq<Vec3<S>>,
    previous: Seq<ControlPoints<S>>,
    balls: Seq<usize>,
    rebuild: bool,
)
    requires
        ordered::<S>(),
        balls_behind_net(bodies, balls),
        chunk_total(net_body_total(balls, bodies.len())) <= chunk_min.len(),
        chunk_total(net_body_total(balls, bodies.len())) <= chunk_max.len(),
        rebuild || boxes_hold(
            bodies,
            chunk_min,
            chunk_max,
            net_body_total(balls, bodies.len()),
        ),
    ensures
        ({
            let after = ball_pass(bodies, chunk_min, chunk_max, previous, balls, rebuild);
            &&& after.0 == uncached_pass(bodies, previous, balls)
            &&& after.0.len() == bodies.len()
            &&& chunk_total(net_body_total(balls, bodies.len())) <= after.1.len()
            &&& chunk_total(net_body_total(balls, bodies.len())) <= after.2.len()
            &&& boxes_hold(after.0, after.1, after.2, net_body_total(balls, bodies.len()))
        }),
{
    let paired = ball_pairs_from(bodies, previous, balls, 0, 1);
    let net = net_body_total(balls, bodies.len());
    lemma_pairs_leave_net(bodies, previous, balls, 0, 1);
    if rebuild {
        lemma_rebuilt_boxes_hold(paired, balls, chunk_min, chunk_max);
        lemma_balls_agree(
            paired,
            rebuilt_minima(paired, balls, chunk_min),
            rebuilt_maxima(paired, balls, chunk_max),
            previous,
            balls,
            0,
        );
    } else {
        assert(boxes_hold(paired, chunk_min, chunk_max, net)) by {
            assert forall|i: int| #![trigger paired[i]] 0 <= i < net implies paired[i]
                == bodies[i] by {}
        }
        lemma_balls_agree(paired, chunk_min, chunk_max, previous, balls, 0);
    }
}

/// A number of passes over all ball contacts, each with every net body looked at.
pub open spec fn uncached_passes<S: Scalar>(
    bodies: Seq<AffineBody<S>>,
    previous: Seq<ControlPoints<S>>,
    balls: Seq<usize>,
    passes: nat,
) -> Seq<AffineBody<S>>
    decreases passes,
{
    if passes == 0 {
        bodies
    } else {
        uncached_passes(
            uncached_pass(bodies, previous, balls),
            previous,
            balls,
            (passes - 1) as nat,
        )
    }
}

/// In exact arithmetic the boxes of the first pass serve the later ones: the passes move the
/// bodies as if each looked at every net body for every ball.
pub proof fn lemma_boxes_serve_all_passes<S: Scalar>(
    bodies: Seq<AffineBody<S>>,
    chunk_min: Seq<Vec3<S>>,
    chunk_max: Seq<Vec3<S>>,
    previous: Seq<ControlPoints<S>>,
    balls: Seq<usize>,
    pass: int,
)
    requires
        ordered::<S>(),
        balls_behind_net(bodies, balls),
        0 <= pass <= CONTACT_PASSES,
        chunk_total(net_body_total(balls, bodies.len())) <= chunk_min.len(),
        chunk_total(net_body_total(balls, bodies.len())) <= chunk_max.len(),
        pass == 0 || boxes_hold(
            bodies,
            chunk_min,
            chunk_max,
            net_body_total(balls, bodies.len()),
        ),
    ensures
        ball_passes(bodies, chunk_min, chunk_max, previous, balls, pass).0 == uncached_passes(
            bodies,
            previous,
            balls,
            (CONTACT_PASSES - pass) as nat,
        ),
    decreases CONTACT_PASSES - pass,
{
    if pass < CONTACT_PASSES {
        lemma_boxes_change_nothing(bodies, chunk_min, chunk_max, previous, balls, pass == 0);
        let next = ball_pass(bodies, chunk_min, chunk_max, previous, balls, pass == 0);
        lemma_boxes_serve_all_passes(next.0, next.1, next.2, previous, balls, pass + 1);
    }
}

/// A number of passes over all ball contacts, each with boxes that are computed anew.
pub open spec fn rebuilt_passes<S: Scalar>(
    bodies: Seq<AffineBody<S>>,
    chunk_min: Seq<Vec3<S>>,
    chunk_max: Seq<Vec3<S>>,
    previous: Seq<ControlPoints<S>>,
    balls: Seq<usize>,
    passes: nat,
) -> Seq<AffineBody<S>>
    decreases passes,
{
    if passes == 0 {
        bodies
    } else {
        let next = ball_pass(bodies, chunk_min, chunk_max, previous, balls, true);
        rebuilt_passes(next.0, next.1, next.2, previous, balls, (passes - 1) as nat)
    }
}

proof fn lemma_rebuilt_passes<S: Scalar>(
    bodies: Seq<AffineBody<S>>,
    chunk_min: Seq<Vec3<S>>,
    chunk_max: Seq<Vec3<S>>,
    previous: Seq<ControlPoints<S>>,
    balls: Seq<usize>,
    passes: nat,
)
    requires
        ordered::<S>(),
        balls_behind_net(bodies, balls),
        chunk_total(net_body_total(balls, bodies.len())) <= chunk_min.len(),
        chunk_total(net_body_total(balls, bodies.len())) <= chunk_max.len(),
    ensures
        rebuilt_passes(bodies, chunk_min, chunk_max, previous, balls, passes) == uncached_passes(
            bodies,
            previous,
            balls,
            passes,
        ),
    decreases passes,
{
    if passes > 0 {
        lemma_boxes_change_nothing(bodies, chunk_min, chunk_max, previous, balls, true);
        let next = ball_pass(bodies, chunk_min, chunk_max, previous, balls, true);
        lemma_rebuilt_passes(next.0, next.1, next.2, previous, balls, (passes - 1) as nat);
    }
}

/// In exact arithmetic the passes move the bodies as if each computed its boxes anew.
pub proof fn lemma_reused_boxes<S: Scalar>(
    bodies: Seq<AffineBody<S>>,
    chunk_min: Seq<Vec3<S>>,
    chunk_max: Seq<Vec3<S>>,
    previous: Seq<ControlPoints<S>>,
    balls: Seq<usize>,
)
    requires
        ordered::<S>(),
        balls_behind_net(bodies, balls),
        chunk_total(net_body_total(balls, bodies.len())) <= chunk_min.len(),
        chunk_total(net_body_total(balls, bodies.len())) <= chunk_max.len(),
    ensures
        ball_passes(bodies, chunk_min, chunk_max, previous, balls, 0).0 == rebuilt_passes(
            bodies,
            chunk_min,
            chunk_max,
            previous,
            balls,
            CONTACT_PASSES as nat,
        ),
{
    lemma_boxes_serve_all_passes(bodies, chunk_min, chunk_max, previous, balls, 0);
    lemma_rebuilt_passes(bodies, chunk_min, chunk_max, previous, balls, CONTACT_PASSES as nat);
}

} // verus!
