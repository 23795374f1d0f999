//! Contacts written down in the plainest way: without boxes, without a special axis, and
//! with every position taken where it is needed. The solver's own contacts agree with them
//! up to rounding.

use crate::attachment::{
    attachment_position, collider_end, collider_start, interpolate_weights, pair_contact, point_of,
    project_attachment_pair, safe_normal, static_push,
};
use crate::balls::{
    ball_hub_distance, ball_pairs_from, ball_rod_distance, center_of, closest_parameter,
    lemma_ball_pairs_move, net_body_total, project_ball_pairs,
};
use crate::body::{
    hub_center, rod_radius, weighted_point, AffineBody, BodyKind, ControlPoints, Weights,
};
use crate::constants::{contact_epsilon, hub_radius};
use crate::cylinder::CylinderCollider;
use crate::joints::Attachment;
use crate::scalar::{clamp_to_unit, half, Scalar};
use crate::vector::Vec3;
use vstd::prelude::*;

verus! {

/// The bodies after the contact of a ball with a net body, with both where they are.
pub open spec fn ball_net_contact<S: Scalar>(
    bodies: Seq<AffineBody<S>>,
    previous: Seq<ControlPoints<S>>,
    ball: usize,
    body: usize,
) -> Seq<AffineBody<S>> {
    match bodies[body as int].kind {
        BodyKind::Hub { .. } => pair_contact(
            bodies,
            previous,
            center_of(ball),
            center_of(body),
            ball_hub_distance(),
            Vec3::y_unit(),
        ),
        BodyKind::Rod => {
            let start = point_of(bodies[body as int], collider_start());
            let end = point_of(bodies[body as int], collider_end());
            let t = closest_parameter(
                point_of(bodies[ball as int], hub_center()),
                start,
                end.minus(start),
            );
            pair_contact(
                bodies,
                previous,
                center_of(ball),
                Attachment {
                    body,
                    weights: interpolate_weights(collider_start(), collider_end(), t),
                },
                ball_rod_distance(),
                Vec3::y_unit(),
            )
        },
        BodyKind::Ball => bodies,
    }
}

/// The contacts of the balls with a net of `net` bodies, from the ball with the given number
/// and the net body `body` on.
pub open spec fn ball_net_contacts_from<S: Scalar>(
    bodies: Seq<AffineBody<S>>,
    previous: Seq<ControlPoints<S>>,
    balls: Seq<usize>,
    net: int,
    number: int,
    body: int,
) -> Seq<AffineBody<S>>
    decreases balls.len() - number, net - body,
{
    if number >= balls.len() {
        bodies
    } else if body >= net {
        ball_net_contacts_from(bodies, previous, balls, net, number + 1, 0)
    } else {
        ball_net_contacts_from(
            ball_net_contact(bodies, previous, balls[number], body as usize),
            previous,
            balls,
            net,
            number,
            body + 1,
        )
    }
}

/// All ball contacts, with every net body looked at for every ball.
pub fn project_ball_contacts_uncached<S: Scalar>(
    bodies: &mut [AffineBody<S>],
    previous_positions: &[ControlPoints<S>],
    ball_indices: &[usize],
)
    requires
        old(bodies)@.len() == previous_positions@.len(),
        forall|i: int|
            0 <= i < ball_indices@.len() ==> (#[trigger] ball_indices@[i]) < old(bodies)@.len(),
    ensures
        final(bodies)@ == ball_net_contacts_from(
            ball_pairs_from(old(bodies)@, previous_positions@, ball_indices@, 0, 1),
            previous_positions@,
            ball_indices@,
            net_body_total(ball_indices@, old(bodies)@.len()),
            0,
            0,
        ),
{
    project_ball_pairs(bodies, previous_positions, ball_indices);
    proof {
        lemma_ball_pairs_move(
            old(bodies)@,
            previous_positions@,
            ball_indices@,
            0,
            1,
        );
    }
    let ghost whole = ball_net_contacts_from(
        bodies@,
        previous_positions@,
        ball_indices@,
        net_body_total(ball_indices@, bodies@.len()),
        0,
        0,
    );
    let net_body_count: usize = if ball_indices.len() > 0 {
        ball_indices[0]
    } else {
        bodies.len()
    };
    let mut number: usize = 0;
    while number < ball_indices.len()
        invariant
            number <= ball_indices@.len(),
            bodies@.len() == previous_positions@.len(),
            net_body_count == net_body_total(ball_indices@, bodies@.len()),
            net_body_count <= bodies@.len(),
            forall|i: int|
                0 <= i < ball_indices@.len() ==> (#[trigger] ball_indices@[i]) < bodies@.len(),
            ball_net_contacts_from(
                bodies@,
                previous_positions@,
                ball_indices@,
                net_body_count as int,
                number as int,
                0,
            ) == whole,
        decreases ball_indices@.len() - number,
    {
        let ball: usize = ball_indices[number];
        let mut body: usize = 0;
        while body < net_body_count
            invariant
                body <= net_body_count,
                number < ball_indices@.len(),
                ball == ball_indices@[number as int],
                bodies@.len() == previous_positions@.len(),
                net_body_count == net_body_total(ball_indices@, bodies@.len()),
                net_body_count <= bodies@.len(),
                forall|i: int|
                    0 <= i < ball_indices@.len() ==> (#[trigger] ball_indices@[i]) < bodies@.len(),
                ball_net_contacts_from(
                    bodies@,
                    previous_positions@,
                    ball_indices@,
                    net_body_count as int,
                    number as int,
                    body as int,
                ) == whole,
            decreases net_body_count - body,
        {
            match bodies[body].kind {
                BodyKind::Hub { .. } => project_attachment_pair(
                    bodies,
                    previous_positions,
                    center_of(ball),
                    center_of(body),
                    ball_hub_distance(),
                    Vec3::unit_y(),
                ),
                BodyKind::Rod => {
                    let sphere_position = attachment_position(bodies, center_of(ball));
                    let start_position = attachment_position(
                        bodies,
                        Attachment { body, weights: collider_start() },
                    );
                    let end_position = attachment_position(
                        bodies,
                        Attachment { body, weights: collider_end() },
                    );
                    let direction = end_position.sub(start_position);
                    let t = closest_parameter(sphere_position, start_position, direction);
                    project_attachment_pair(
                        bodies,
                        previous_positions,
                        center_of(ball),
                        Attachment {
                            body,
                            weights: interpolate_weights(collider_start(), collider_end(), t),
                        },
                        ball_rod_distance(),
                        Vec3::unit_y(),
                    );
                },
                BodyKind::Ball => {},
            }
            body = body + 1;
        }
        number = number + 1;
    }
}

/// What is left of a vector without its part along a unit axis.
#[verifier::allow_in_spec]
pub fn reject_from_axis<S: Scalar>(vector: Vec3<S>, axis: Vec3<S>) -> (result: Vec3<S>)
    returns
        vector.minus(axis.scaled(vector.inner(axis))),
{
    vector.sub(axis.scale(vector.dot(axis)))
}

/// A unit vector perpendicular to a unit axis.
#[verifier::allow_in_spec]
pub fn perpendicular_to<S: Scalar>(axis: Vec3<S>) -> (result: Vec3<S>)
    returns
        reject_from_axis(
            if axis.y.magnitude().below(S::fraction(9, 10)) {
                Vec3::<S>::y_unit()
            } else {
                Vec3::<S>::x_unit()
            },
            axis,
        ).normal_or_origin(),
{
    let candidate: Vec3<S> = if axis.y.abs().lt(S::from_fraction(9, 10)) {
        Vec3::unit_y()
    } else {
        Vec3::unit_x()
    };
    reject_from_axis(candidate, axis).normalize_or_zero()
}

/// The point of a net body closest to a line along a unit axis, and the radius of the body.
pub open spec fn closest_point<S: Scalar>(
    body: AffineBody<S>,
    origin: Vec3<S>,
    axis: Vec3<S>,
) -> (Weights<S>, S) {
    if body.kind is Rod {
        let start = point_of(body, collider_start());
        let end = point_of(body, collider_end());
        let start_radial = reject_from_axis(start.minus(origin), axis);
        let direction_radial = reject_from_axis(end.minus(start), axis);
        let denominator = direction_radial.squared();
        let t = if contact_epsilon::<S>().below(denominator) {
            clamp_to_unit(start_radial.inner(direction_radial).negated().over(denominator))
        } else {
            half()
        };
        (interpolate_weights(collider_start(), collider_end(), t), rod_radius())
    } else {
        (hub_center(), hub_radius())
    }
}

/// A body pushed out of a cylinder along any unit axis. Balls pass through it.
pub open spec fn axis_contact<S: Scalar>(
    body: AffineBody<S>,
    previous: ControlPoints<S>,
    cylinder: CylinderCollider<S>,
    axis: Vec3<S>,
) -> AffineBody<S> {
    let (weights, proxy_radius) = closest_point(body, cylinder.origin, axis);
    let radial = reject_from_axis(point_of(body, weights).minus(cylinder.origin), axis);
    let contact_distance = cylinder.radius.plus(proxy_radius);
    if body.kind is Ball || contact_distance.times(contact_distance).at_most(radial.squared()) {
        body
    } else {
        let previous_radial = reject_from_axis(
            weighted_point(previous, weights).minus(cylinder.origin),
            axis,
        );
        let normal = safe_normal(radial, previous_radial, perpendicular_to(axis));
        static_push(body, weights, normal, contact_distance.minus(radial.squared().root())).0
    }
}

fn push_from_axis<S: Scalar>(
    body: AffineBody<S>,
    previous: ControlPoints<S>,
    cylinder: CylinderCollider<S>,
    axis: Vec3<S>,
) -> (result: AffineBody<S>)
    ensures
        result == axis_contact(body, previous, cylinder, axis),
{
    let (weights, proxy_radius) = match body.kind {
        BodyKind::Hub { .. } => (hub_center(), hub_radius()),
        BodyKind::Rod => {
            let start_position = weighted_point(body.positions, collider_start());
            let end_position = weighted_point(body.positions, collider_end());
            let start_radial = reject_from_axis(start_position.sub(cylinder.origin), axis);
            let direction_radial = reject_from_axis(end_position.sub(start_position), axis);
            let denominator = direction_radial.length_squared();
            let t = if contact_epsilon::<S>().lt(denominator) {
                clamp_to_unit(start_radial.dot(direction_radial).neg().div(denominator))
            } else {
                half()
            };
            (interpolate_weights(collider_start(), collider_end(), t), rod_radius())
        },
        BodyKind::Ball => return body,
    };
    let position = weighted_point(body.positions, weights);
    let radial = reject_from_axis(position.sub(cylinder.origin), axis);
    let contact_distance = cylinder.radius.add(proxy_radius);
    let distance_squared = radial.length_squared();
    if contact_distance.mul(contact_distance).le(distance_squared) {
        return body;
    }
    let distance = distance_squared.sqrt();
    let previous_point = weighted_point(previous, weights);
    let previous_radial = reject_from_axis(previous_point.sub(cylinder.origin), axis);
    let normal = safe_normal(radial, previous_radial, perpendicular_to(axis));
    static_push(body, weights, normal, contact_distance.sub(distance)).0
}

/// One contact of every body with a cylinder along any axis. Without an axis there is none.
pub fn project_cylinder_contacts_reference<S: Scalar>(
    bodies: &mut [AffineBody<S>],
    previous_positions: &[ControlPoints<S>],
    cylinder: CylinderCollider<S>,
)
    requires
        old(bodies)@.len() == previous_positions@.len(),
    ensures
        final(bodies)@.len() == old(bodies)@.len(),
        ({
            let axis = cylinder.axis.normal_or_origin();
            forall|i: int|
                0 <= i < old(bodies)@.len() ==> (#[trigger] final(bodies)@[i]) == (
                if axis.squared().at_most(contact_epsilon()) {
                    old(bodies)@[i]
                } else {
                    axis_contact(old(bodies)@[i], previous_positions@[i], cylinder, axis)
                })
        }),
{
    let axis = cylinder.axis.normalize_or_zero();
    if axis.length_squared().le(contact_epsilon()) {
        return ;
    }
    let count: usize = bodies.len();
    let mut index: usize = 0;
    while index < count
        invariant
            index <= count,
            count == old(bodies)@.len(),
            bodies@.len() == count,
            previous_positions@.len() == count,
            forall|i: int|
                0 <= i < count ==> (#[trigger] bodies@[i]) == (if i < index {
                    axis_contact(old(bodies)@[i], previous_positions@[i], cylinder, axis)
                } else {
                    old(bodies)@[i]
                }),
        decreases count - index,
    {
        let body = push_from_axis(bodies[index], previous_positions[index], cylinder, axis);
        bodies[index] = body;
        index = index + 1;
    }
}

} // verus!
