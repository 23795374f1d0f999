//! Points of bodies and how contacts push them.

use crate::body::{rod_end, rod_start, weighted_point, AffineBody, ControlPoints, Weights};
use crate::constants::{contact_epsilon, rod_collider_trim};
use crate::joints::Attachment;
use crate::scalar::{one, zero, Scalar};
use crate::vector::Vec3;
use vstd::prelude::*;

verus! {

/// Where a point of a body is.
pub open spec fn point_of<S: Scalar>(body: AffineBody<S>, weights: Weights<S>) -> Vec3<S> {
    weighted_point(body.positions, weights)
}

pub fn attachment_position<S: Scalar>(
    bodies: &[AffineBody<S>],
    attachment: Attachment<S>,
) -> (result: Vec3<S>)
    requires
        attachment.body < bodies@.len(),
    ensures
        result == point_of(bodies@[attachment.body as int], attachment.weights),
{
    weighted_point(bodies[attachment.body].positions, attachment.weights)
}

/// Where a point of a body was before the step.
pub fn previous_attachment_position<S: Scalar>(
    previous_positions: &[ControlPoints<S>],
    attachment: Attachment<S>,
) -> (result: Vec3<S>)
    requires
        attachment.body < previous_positions@.len(),
    ensures
        result == weighted_point(
            previous_positions@[attachment.body as int],
            attachment.weights,
        ),
{
    weighted_point(previous_positions[attachment.body], attachment.weights)
}

/// How easily a push at a point moves that point: the inverse diagonal of its body times the
/// sum of the squared weights.
#[verifier::allow_in_spec]
pub fn inverse_weight<S: Scalar>(body: AffineBody<S>, weights: Weights<S>) -> (result: S)
    returns
        body.inverse_diagonal.times(
            zero::<S>().plus(weights.w0.times(weights.w0)).plus(weights.w1.times(weights.w1)).plus(
                weights.w2.times(weights.w2),
            ).plus(weights.w3.times(weights.w3)),
        ),
{
    body.inverse_diagonal.mul(
        zero::<S>().add(weights.w0.mul(weights.w0)).add(weights.w1.mul(weights.w1)).add(
            weights.w2.mul(weights.w2),
        ).add(weights.w3.mul(weights.w3)),
    )
}

pub fn attachment_inverse_weight<S: Scalar>(
    bodies: &[AffineBody<S>],
    attachment: Attachment<S>,
) -> (result: S)
    requires
        attachment.body < bodies@.len(),
    ensures
        result == inverse_weight(bodies@[attachment.body as int], attachment.weights),
{
    inverse_weight(bodies[attachment.body], attachment.weights)
}

/// A body pushed at a point: its control points move along `direction` by their weights. A
/// fixed body stays.
#[verifier::allow_in_spec]
pub fn pushed<S: Scalar>(
    body: AffineBody<S>,
    weights: Weights<S>,
    direction: Vec3<S>,
    multiplier: S,
) -> (result: AffineBody<S>)
    returns
        (if body.fixed {
            body
        } else {
            let scale = body.inverse_diagonal.times(multiplier);
            AffineBody::<S> {
                positions: ControlPoints {
                    p0: body.positions.p0.plus(direction.scaled(scale.times(weights.w0))),
                    p1: body.positions.p1.plus(direction.scaled(scale.times(weights.w1))),
                    p2: body.positions.p2.plus(direction.scaled(scale.times(weights.w2))),
                    p3: body.positions.p3.plus(direction.scaled(scale.times(weights.w3))),
                },
                ..body
            }
        }),
{
    if body.fixed {
        return body;
    }
    let scale = body.inverse_diagonal.mul(multiplier);
    AffineBody {
        positions: ControlPoints {
            p0: body.positions.p0.add(direction.scale(scale.mul(weights.w0))),
            p1: body.positions.p1.add(direction.scale(scale.mul(weights.w1))),
            p2: body.positions.p2.add(direction.scale(scale.mul(weights.w2))),
            p3: body.positions.p3.add(direction.scale(scale.mul(weights.w3))),
        },
        ..body
    }
}

pub fn apply_attachment_position_delta<S: Scalar>(
    bodies: &mut [AffineBody<S>],
    attachment: Attachment<S>,
    direction: Vec3<S>,
    multiplier: S,
)
    requires
        attachment.body < old(bodies)@.len(),
    ensures
        final(bodies)@ == old(bodies)@.update(
            attachment.body as int,
            pushed(
                old(bodies)@[attachment.body as int],
                attachment.weights,
                direction,
                multiplier,
            ),
        ),
{
    let body = pushed(bodies[attachment.body], attachment.weights, direction, multiplier);
    bodies[attachment.body] = body;
}

/// The point a part `t` of the way from one point of a body to another.
#[verifier::allow_in_spec]
pub fn interpolate_weights<S: Scalar>(a: Weights<S>, b: Weights<S>, t: S) -> (result: Weights<S>)
    returns
        (Weights::<S> {
            w0: a.w0.plus(b.w0.minus(a.w0).times(t)),
            w1: a.w1.plus(b.w1.minus(a.w1).times(t)),
            w2: a.w2.plus(b.w2.minus(a.w2).times(t)),
            w3: a.w3.plus(b.w3.minus(a.w3).times(t)),
        }),
{
    Weights {
        w0: a.w0.add(b.w0.sub(a.w0).mul(t)),
        w1: a.w1.add(b.w1.sub(a.w1).mul(t)),
        w2: a.w2.add(b.w2.sub(a.w2).mul(t)),
        w3: a.w3.add(b.w3.sub(a.w3).mul(t)),
    }
}

pub fn interpolate_attachment<S: Scalar>(
    a: Attachment<S>,
    b: Attachment<S>,
    t: S,
) -> (result: Attachment<S>)
    requires
        a.body == b.body,
    ensures
        result.body == a.body,
        result.weights == interpolate_weights(a.weights, b.weights, t),
{
    Attachment { body: a.body, weights: interpolate_weights(a.weights, b.weights, t) }
}

/// The start of the part of a rod that collides.
#[verifier::allow_in_spec]
pub fn collider_start<S: Scalar>() -> (result: Weights<S>)
    returns
        interpolate_weights(rod_start::<S>(), rod_end(), rod_collider_trim()),
{
    interpolate_weights(rod_start(), rod_end(), rod_collider_trim())
}

/// The end of the part of a rod that collides.
#[verifier::allow_in_spec]
pub fn collider_end<S: Scalar>() -> (result: Weights<S>)
    returns
        interpolate_weights(rod_start::<S>(), rod_end(), one::<S>().minus(rod_collider_trim())),
{
    interpolate_weights(rod_start(), rod_end(), one::<S>().sub(rod_collider_trim()))
}

pub fn rod_collider_attachments<S: Scalar>(body: usize) -> (result: (Attachment<S>, Attachment<S>))
    ensures
        result.0 == (Attachment { body, weights: collider_start::<S>() }),
        result.1 == (Attachment { body, weights: collider_end::<S>() }),
{
    (
        Attachment { body, weights: collider_start() },
        Attachment { body, weights: collider_end() },
    )
}

/// The unit vector along the first of three vectors that is long enough; zero where the last
/// has no direction.
#[verifier::allow_in_spec]
pub fn safe_normal<S: Scalar>(
    primary: Vec3<S>,
    secondary: Vec3<S>,
    fallback: Vec3<S>,
) -> (result: Vec3<S>)
    returns
        (if contact_epsilon::<S>().below(primary.squared()) {
            primary.normal()
        } else if contact_epsilon::<S>().below(secondary.squared()) {
            secondary.normal()
        } else {
            fallback.normal_or_origin()
        }),
{
    if contact_epsilon::<S>().lt(primary.length_squared()) {
        primary.normalize()
    } else if contact_epsilon::<S>().lt(secondary.length_squared()) {
        secondary.normalize()
    } else {
        fallback.normalize_or_zero()
    }
}

/// A body pushed out of something that does not move, and whether it was: a fixed body or
/// one that no push can move stays.
#[verifier::allow_in_spec]
pub fn static_push<S: Scalar>(
    body: AffineBody<S>,
    weights: Weights<S>,
    normal: Vec3<S>,
    penetration: S,
) -> (result: (AffineBody<S>, bool))
    returns
        ({
            let weight = inverse_weight(body, weights);
            if weight.at_most(contact_epsilon()) || body.fixed {
                (body, false)
            } else {
                (pushed(body, weights, normal, penetration.over(weight)), true)
            }
        }),
{
    let weight = inverse_weight(body, weights);
    if weight.le(contact_epsilon()) || body.fixed {
        (body, false)
    } else {
        (pushed(body, weights, normal, penetration.div(weight)), true)
    }
}

pub fn project_static_attachment<S: Scalar>(
    bodies: &mut [AffineBody<S>],
    attachment: Attachment<S>,
    normal: Vec3<S>,
    penetration: S,
) -> (applied: bool)
    requires
        attachment.body < old(bodies)@.len(),
    ensures
        ({
            let push = static_push(
                old(bodies)@[attachment.body as int],
                attachment.weights,
                normal,
                penetration,
            );
            &&& final(bodies)@ == old(bodies)@.update(attachment.body as int, push.0)
            &&& applied == push.1
        }),
{
    let (body, applied) = static_push(
        bodies[attachment.body],
        attachment.weights,
        normal,
        penetration,
    );
    bodies[attachment.body] = body;
    applied
}

/// The way two points part: along the line between them; where they are too close for that,
/// along the line between where they were before, or else along `fallback`.
pub open spec fn parting_normal<S: Scalar>(
    delta: Vec3<S>,
    previous_delta: Vec3<S>,
    fallback: Vec3<S>,
) -> Vec3<S> {
    if contact_epsilon::<S>().below(delta.squared()) {
        delta.over(delta.squared().root())
    } else {
        safe_normal(delta, previous_delta, fallback)
    }
}

/// Two bodies pushed apart until two of their points are `minimum_distance` from each other,
/// and whether they were: they stay where the points are far enough apart, or where no push
/// can move either.
pub open spec fn pair_push<S: Scalar>(
    a: (AffineBody<S>, Weights<S>, ControlPoints<S>, Vec3<S>),
    b: (AffineBody<S>, Weights<S>, ControlPoints<S>, Vec3<S>),
    minimum_distance: S,
    fallback: Vec3<S>,
) -> (AffineBody<S>, AffineBody<S>, bool) {
    let (a_body, a_weights, a_previous, a_position) = a;
    let (b_body, b_weights, b_previous, b_position) = b;
    let delta = a_position.minus(b_position);
    let distance_squared = delta.squared();
    let distance = distance_squared.root();
    let penetration = minimum_distance.minus(distance);
    let normal = parting_normal(
        delta,
        weighted_point(a_previous, a_weights).minus(weighted_point(b_previous, b_weights)),
        fallback,
    );
    let denominator = inverse_weight(a_body, a_weights).plus(inverse_weight(b_body, b_weights));
    if minimum_distance.times(minimum_distance).at_most(distance_squared) || denominator.at_most(
        contact_epsilon(),
    ) {
        (a_body, b_body, false)
    } else {
        let multiplier = penetration.over(denominator);
        (
            pushed(a_body, a_weights, normal, multiplier),
            pushed(b_body, b_weights, normal.negated(), multiplier),
            true,
        )
    }
}

/// `pair_push` on two bodies of a list, with the points where they are taken to be. A body
/// does not collide with itself.
pub open spec fn pair_contact_at<S: Scalar>(
    bodies: Seq<AffineBody<S>>,
    previous: Seq<ControlPoints<S>>,
    a: Attachment<S>,
    b: Attachment<S>,
    a_position: Vec3<S>,
    b_position: Vec3<S>,
    minimum_distance: S,
    fallback: Vec3<S>,
) -> (Seq<AffineBody<S>>, bool) {
    let i = a.body as int;
    let j = b.body as int;
    let push = pair_push(
        (bodies[i], a.weights, previous[i], a_position),
        (bodies[j], b.weights, previous[j], b_position),
        minimum_distance,
        fallback,
    );
    if i == j {
        (bodies, false)
    } else {
        (bodies.update(i, push.0).update(j, push.1), push.2)
    }
}

pub fn project_attachment_pair_at_positions<S: Scalar>(
    bodies: &mut [AffineBody<S>],
    previous_positions: &[ControlPoints<S>],
    a: Attachment<S>,
    b: Attachment<S>,
    a_position: Vec3<S>,
    b_position: Vec3<S>,
    minimum_distance: S,
    fallback: Vec3<S>,
) -> (applied: bool)
    requires
        a.body < old(bodies)@.len(),
        b.body < old(bodies)@.len(),
        a.body < previous_positions@.len(),
        b.body < previous_positions@.len(),
    ensures
        (final(bodies)@, applied) == pair_contact_at(
            old(bodies)@,
            previous_positions@,
            a,
            b,
            a_position,
            b_position,
            minimum_distance,
            fallback,
        ),
{
    if a.body == b.body {
        return false;
    }
    let delta = a_position.sub(b_position);
    let distance_squared = delta.length_squared();
    if minimum_distance.mul(minimum_distance).le(distance_squared) {
        assert(bodies@ == old(bodies)@.update(a.body as int, old(bodies)@[a.body as int]).update(
            b.body as int,
            old(bodies)@[b.body as int],
        ));
        return false;
    }
    let distance = distance_squared.sqrt();
    let penetration = minimum_distance.sub(distance);
    let normal = if contact_epsilon::<S>().lt(distance_squared) {
        delta.div(distance)
    } else {
        let previous_delta = previous_attachment_position(previous_positions, a).sub(
            previous_attachment_position(previous_positions, b),
        );
        safe_normal(delta, previous_delta, fallback)
    };
    let denominator = attachment_inverse_weight(bodies, a).add(
        attachment_inverse_weight(bodies, b),
    );
    if denominator.le(contact_epsilon()) {
        assert(bodies@ == old(bodies)@.update(a.body as int, old(bodies)@[a.body as int]).update(
            b.body as int,
            old(bodies)@[b.body as int],
        ));
        return false;
    }
    let multiplier = penetration.div(denominator);
    apply_attachment_position_delta(bodies, a, normal, multiplier);
    apply_attachment_position_delta(bodies, b, normal.neg(), multiplier);
    true
}

/// `pair_contact_at` with the points where they are.
pub open spec fn pair_contact<S: Scalar>(
    bodies: Seq<AffineBody<S>>,
    previous: Seq<ControlPoints<S>>,
    a: Attachment<S>,
    b: Attachment<S>,
    minimum_distance: S,
    fallback: Vec3<S>,
) -> Seq<AffineBody<S>> {
    pair_contact_at(
        bodies,
        previous,
        a,
        b,
        point_of(bodies[a.body as int], a.weights),
        point_of(bodies[b.body as int], b.weights),
        minimum_distance,
        fallback,
    ).0
}

pub fn project_attachment_pair<S: Scalar>(
    bodies: &mut [AffineBody<S>],
    previous_positions: &[ControlPoints<S>],
    a: Attachment<S>,
    b: Attachment<S>,
    minimum_distance: S,
    fallback: Vec3<S>,
)
    requires
        a.body < old(bodies)@.len(),
        b.body < old(bodies)@.len(),
        a.body < previous_positions@.len(),
        b.body < previous_positions@.len(),
    ensures
        final(bodies)@ == pair_contact(
            old(bodies)@,
            previous_positions@,
            a,
            b,
            minimum_distance,
            fallback,
        ),
{
    if a.body == b.body {
        return ;
    }
    let a_position = attachment_position(bodies, a);
    let b_position = attachment_position(bodies, b);
    let _ = project_attachment_pair_at_positions(
        bodies,
        previous_positions,
        a,
        b,
        a_position,
        b_position,
        minimum_distance,
        fallback,
    );
}

} // verus!
