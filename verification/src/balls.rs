//! Contacts of falling balls with each other and with the net.
//!
//! Boxes around chunks of net bodies keep most of the net from being looked at. A box grows
//! with every push inside its chunk, so that it can serve a second pass.

use crate::attachment::{
    attachment_position, collider_end, collider_start, interpolate_weights, pair_contact,
    pair_contact_at, point_of, project_attachment_pair, project_attachment_pair_at_positions,
};
use crate::body::{
    body_only_moved, hub_attachment_center, hub_center, lemma_only_moved_transitive, only_moved,
    rod_joint_endpoints, rod_radius, AffineBody, BodyKind, ControlPoints,
};
use crate::constants::{
    ball_radius, contact_epsilon, hub_radius, rod_collider_trim, CONTACT_PASSES,
    CONTACT_PROXY_CHUNK_SIZE,
};
use crate::joints::{chunk_count, chunk_total, Attachment};
use crate::scalar::{clamp_to_unit, half, Scalar};
use crate::vector::Vec3;
use vstd::prelude::*;

verus! {

/// The centre of a body as a point of it.
#[verifier::allow_in_spec]
pub fn center_of<S: Scalar>(body: usize) -> (result: Attachment<S>)
    returns
        (Attachment::<S> { body, weights: hub_center() }),
{
    Attachment { body, weights: hub_center() }
}

/// The way two balls part whose centres coincide now and before the step.
#[verifier::allow_in_spec]
pub fn pair_fallback<S: Scalar>(remainder: usize) -> (result: Vec3<S>)
    returns
        (if remainder == 0 {
            Vec3::<S>::x_unit()
        } else if remainder == 1 {
            Vec3::<S>::y_unit()
        } else {
            Vec3::<S>::z_unit()
        }),
{
    if remainder == 0 {
        Vec3::unit_x()
    } else if remainder == 1 {
        Vec3::unit_y()
    } else {
        Vec3::unit_z()
    }
}

/// The distance of two balls that touch.
#[verifier::allow_in_spec]
pub fn ball_pair_distance<S: Scalar>() -> (result: S)
    returns
        ball_radius::<S>().times(S::fraction(2, 1)),
{
    ball_radius::<S>().mul(S::from_fraction(2, 1))
}

/// The bodies after the contacts between balls, from the pair of the balls with the numbers
/// `first` and `second` on.
pub open spec fn ball_pairs_from<S: Scalar>(
    bodies: Seq<AffineBody<S>>,
    previous: Seq<ControlPoints<S>>,
    balls: Seq<usize>,
    first: int,
    second: int,
) -> Seq<AffineBody<S>>
    decreases balls.len() - first, balls.len() - second,
{
    if first >= balls.len() {
        bodies
    } else if second >= balls.len() {
        ball_pairs_from(bodies, previous, balls, first + 1, first + 2)
    } else {
        ball_pairs_from(
            pair_contact(
                bodies,
                previous,
                center_of(balls[first]),
                center_of(balls[second]),
                ball_pair_distance(),
                pair_fallback(((first + second) % 3) as usize),
            ),
            previous,
            balls,
            first,
            second + 1,
        )
    }
}

/// The contacts between balls, each pair once, in the order of their numbers.
pub fn project_ball_pairs<S: Scalar>(
    bodies: &mut [AffineBody<S>],
    previous_positions: &[ControlPoints<S>],
    ball_indices: &[usize],
)
    requires
        old(bodies)@.len() == previous_positions@.len(),
        forall|i: int|
            0 <= i < ball_indices@.len() ==> (#[trigger] ball_indices@[i]) < old(bodies)@.len(),
    ensures
        final(bodies)@ == ball_pairs_from(
            old(bodies)@,
            previous_positions@,
            ball_indices@,
            0,
            1,
        ),
{
    let count: usize = ball_indices.len();
    let mut first: usize = 0;
    while first < count
        invariant
            first <= count,
            count == ball_indices@.len(),
            bodies@.len() == old(bodies)@.len(),
            bodies@.len() == previous_positions@.len(),
            forall|i: int|
                0 <= i < ball_indices@.len() ==> (#[trigger] ball_indices@[i]) < bodies@.len(),
            ball_pairs_from(
                bodies@,
                previous_positions@,
                ball_indices@,
                first as int,
                first + 1,
            ) == ball_pairs_from(old(bodies)@, previous_positions@, ball_indices@, 0, 1),
        decreases count - first,
    {
        let mut second: usize = first + 1;
        while second < count
            invariant
                first < second <= count,
                count == ball_indices@.len(),
                bodies@.len() == old(bodies)@.len(),
                bodies@.len() == previous_positions@.len(),
                forall|i: int|
                    0 <= i < ball_indices@.len() ==> (#[trigger] ball_indices@[i]) < bodies@.len(),
                ball_pairs_from(
                    bodies@,
                    previous_positions@,
                    ball_indices@,
                    first as int,
                    second as int,
                ) == ball_pairs_from(old(bodies)@, previous_positions@, ball_indices@, 0, 1),
            decreases count - second,
        {
            let remainder: usize = (first % 3 + second % 3) % 3;
            assert(remainder == (first + second) % 3);
            project_attachment_pair(
                bodies,
                previous_positions,
                center_of(ball_indices[first]),
                center_of(ball_indices[second]),
                ball_pair_distance(),
                pair_fallback(remainder),
            );
            second = second + 1;
        }
        first = first + 1;
    }
}

/// The segment between the joint points of a net body; a hub's has no length.
pub open spec fn broad_proxy<S: Scalar>(body: AffineBody<S>) -> (Vec3<S>, Vec3<S>) {
    if body.kind is Rod {
        rod_joint_endpoints(body.positions)
    } else {
        (hub_attachment_center(body.positions), hub_attachment_center(body.positions))
    }
}

pub fn broad_contact_proxy<S: Scalar>(body: &AffineBody<S>) -> (result: (Vec3<S>, Vec3<S>))
    requires
        !(body.kind is Ball),
    ensures
        result == broad_proxy(*body),
{
    match body.kind {
        BodyKind::Rod => rod_joint_endpoints(body.positions),
        BodyKind::Hub { .. } | BodyKind::Ball => {
            let center = hub_attachment_center(body.positions);
            (center, center)
        },
    }
}

/// The segment of a net body that collides; a hub's has no length.
pub open spec fn detailed_proxy<S: Scalar>(body: AffineBody<S>) -> (Vec3<S>, Vec3<S>) {
    if body.kind is Rod {
        let ends = rod_joint_endpoints(body.positions);
        let trim = ends.1.minus(ends.0).scaled(rod_collider_trim());
        (ends.0.plus(trim), ends.1.minus(trim))
    } else {
        (hub_attachment_center(body.positions), hub_attachment_center(body.positions))
    }
}

pub fn detailed_contact_proxy<S: Scalar>(body: &AffineBody<S>) -> (result: (Vec3<S>, Vec3<S>))
    requires
        !(body.kind is Ball),
    ensures
        result == detailed_proxy(*body),
{
    match body.kind {
        BodyKind::Rod => {
            let (joint_start, joint_end) = rod_joint_endpoints(body.positions);
            let trim_offset = joint_end.sub(joint_start).scale(rod_collider_trim());
            (joint_start.add(trim_offset), joint_end.sub(trim_offset))
        },
        BodyKind::Hub { .. } | BodyKind::Ball => {
            let center = hub_attachment_center(body.positions);
            (center, center)
        },
    }
}

/// The number of bodies before the first ball; all of them where there is no ball.
pub open spec fn net_body_total(balls: Seq<usize>, bodies: nat) -> int {
    if balls.len() > 0 {
        balls[0] as int
    } else {
        bodies as int
    }
}

/// The first body after a chunk.
pub open spec fn chunk_end(chunk: int, net_bodies: int) -> int {
    let end = (chunk + 1) * CONTACT_PROXY_CHUNK_SIZE;
    if end < net_bodies {
        end
    } else {
        net_bodies
    }
}

/// The box around the joint points of the bodies from `from` up to but not at `to`.
pub open spec fn bounds_of<S: Scalar>(
    bodies: Seq<AffineBody<S>>,
    from: int,
    to: int,
) -> (Vec3<S>, Vec3<S>)
    decreases to - from,
{
    if to <= from {
        (Vec3::all(S::unbounded()), Vec3::all(S::unbounded().negated()))
    } else {
        let (minimum, maximum) = bounds_of(bodies, from, to - 1);
        let (start, end) = broad_proxy(bodies[to - 1]);
        (minimum.lesser(start).lesser(end), maximum.greater(start).greater(end))
    }
}

/// The box around the joint points of a chunk of net bodies.
pub open spec fn chunk_bounds<S: Scalar>(
    bodies: Seq<AffineBody<S>>,
    chunk: int,
    net_bodies: int,
) -> (Vec3<S>, Vec3<S>) {
    bounds_of(bodies, chunk * CONTACT_PROXY_CHUNK_SIZE, chunk_end(chunk, net_bodies))
}

/// Computes the boxes of the chunks of a slice of net bodies.
pub fn rebuild_ball_contact_chunk_bounds_sequential<S: Scalar>(
    bodies: &[AffineBody<S>],
    chunk_min: &mut [Vec3<S>],
    chunk_max: &mut [Vec3<S>],
)
    requires
        old(chunk_min)@.len() == chunk_total(bodies@.len() as int),
        old(chunk_max)@.len() == chunk_total(bodies@.len() as int),
        forall|i: int| 0 <= i < bodies@.len() ==> !((#[trigger] bodies@[i]).kind is Ball),
    ensures
        final(chunk_min)@.len() == old(chunk_min)@.len(),
        final(chunk_max)@.len() == old(chunk_max)@.len(),
        forall|chunk: int|
            #![trigger final(chunk_min)@[chunk]]
            #![trigger final(chunk_max)@[chunk]]
            0 <= chunk < old(chunk_min)@.len() ==> (
                final(chunk_min)@[chunk],
                final(chunk_max)@[chunk],
            ) == chunk_bounds(bodies@, chunk, bodies@.len() as int),
{
    let count: usize = bodies.len();
    let chunks: usize = chunk_min.len();
    let mut chunk: usize = 0;
    let mut first: usize = 0;
    while chunk < chunks
        invariant
            chunk <= chunks,
            chunks == chunk_total(count as int),
            count == bodies@.len(),
            first == (if chunk * CONTACT_PROXY_CHUNK_SIZE < count {
                chunk * CONTACT_PROXY_CHUNK_SIZE
            } else {
                count as int
            }),
            chunk_min@.len() == chunks,
            chunk_max@.len() == chunks,
            forall|i: int| 0 <= i < bodies@.len() ==> !((#[trigger] bodies@[i]).kind is Ball),
            forall|c: int|
                #![trigger chunk_min@[c]]
                #![trigger chunk_max@[c]]
                0 <= c < chunk ==> (chunk_min@[c], chunk_max@[c]) == chunk_bounds(
                    bodies@,
                    c,
                    count as int,
                ),
        decreases chunks - chunk,
    {
        let end: usize = if count - first > CONTACT_PROXY_CHUNK_SIZE {
            first + CONTACT_PROXY_CHUNK_SIZE
        } else {
            count
        };
        let mut minimum = Vec3::splat(S::infinity());
        let mut maximum = Vec3::splat(S::infinity().neg());
        let mut index: usize = first;
        while index < end
            invariant
                first <= index <= end <= count,
                count == bodies@.len(),
                forall|i: int| 0 <= i < bodies@.len() ==> !((#[trigger] bodies@[i]).kind is Ball),
                (minimum, maximum) == bounds_of(bodies@, first as int, index as int),
            decreases end - index,
        {
            let (start_point, end_point) = broad_contact_proxy(&bodies[index]);
            minimum = minimum.min(start_point).min(end_point);
            maximum = maximum.max(start_point).max(end_point);
            index = index + 1;
        }
        chunk_min[chunk] = minimum;
        chunk_max[chunk] = maximum;
        chunk = chunk + 1;
        first = end;
    }
}

/// Computes the boxes of the chunks of the net. Boxes beyond the last chunk stay.
pub fn rebuild_ball_contact_chunk_bounds<S: Scalar>(
    bodies: &[AffineBody<S>],
    ball_indices: &[usize],
    chunk_min: &mut [Vec3<S>],
    chunk_max: &mut [Vec3<S>],
)
    requires
        net_body_total(ball_indices@, bodies@.len()) <= bodies@.len(),
        chunk_total(net_body_total(ball_indices@, bodies@.len())) <= old(chunk_min)@.len(),
        chunk_total(net_body_total(ball_indices@, bodies@.len())) <= old(chunk_max)@.len(),
        forall|i: int|
            0 <= i < net_body_total(ball_indices@, bodies@.len()) ==> !(
            (#[trigger] bodies@[i]).kind is Ball),
    ensures
        final(chunk_min)@ == rebuilt_minima(bodies@, ball_indices@, old(chunk_min)@),
        final(chunk_max)@ == rebuilt_maxima(bodies@, ball_indices@, old(chunk_max)@),
{
    let net_body_count: usize = if ball_indices.len() > 0 {
        ball_indices[0]
    } else {
        bodies.len()
    };
    let chunks: usize = chunk_count(net_body_count);
    let net_bodies = &bodies[0..net_body_count];
    let (minima, _) = chunk_min.split_at_mut(chunks);
    let (maxima, _) = chunk_max.split_at_mut(chunks);
    rebuild_ball_contact_chunk_bounds_sequential(net_bodies, minima, maxima);
    proof {
        let net = net_body_count as int;
        assert forall|chunk: int| 0 <= chunk < chunks implies #[trigger] chunk_bounds(
            net_bodies@,
            chunk,
            net,
        ) == chunk_bounds(bodies@, chunk, net) by {
            lemma_bounds_local(
                net_bodies@,
                bodies@,
                chunk * CONTACT_PROXY_CHUNK_SIZE,
                chunk_end(chunk, net),
                0,
            );
        }
        assert(chunk_min@ =~= rebuilt_minima(bodies@, ball_indices@, old(chunk_min)@)) by {
            assert forall|chunk: int| 0 <= chunk < chunks implies chunk_min@[chunk] == (
            #[trigger] chunk_bounds(bodies@, chunk, net)).0 by {
                let local = chunk_bounds(net_bodies@, chunk, net);
                assert(minima@[chunk] == local.0);
            }
        }
        assert(chunk_max@ =~= rebuilt_maxima(bodies@, ball_indices@, old(chunk_max)@)) by {
            assert forall|chunk: int| 0 <= chunk < chunks implies chunk_max@[chunk] == (
            #[trigger] chunk_bounds(bodies@, chunk, net)).1 by {
                let local = chunk_bounds(net_bodies@, chunk, net);
                assert(maxima@[chunk] == local.1);
            }
        }
    }
}

/// The lower corners of the boxes of a net after they are computed anew.
pub open spec fn rebuilt_minima<S: Scalar>(
    bodies: Seq<AffineBody<S>>,
    balls: Seq<usize>,
    chunk_min: Seq<Vec3<S>>,
) -> Seq<Vec3<S>> {
    let net = net_body_total(balls, bodies.len());
    Seq::new(
        chunk_min.len(),
        |chunk: int|
            if chunk < chunk_total(net) {
                chunk_bounds(bodies, chunk, net).0
            } else {
                chunk_min[chunk]
            },
    )
}

/// The upper corners of the boxes of a net after they are computed anew.
pub open spec fn rebuilt_maxima<S: Scalar>(
    bodies: Seq<AffineBody<S>>,
    balls: Seq<usize>,
    chunk_max: Seq<Vec3<S>>,
) -> Seq<Vec3<S>> {
    let net = net_body_total(balls, bodies.len());
    Seq::new(
        chunk_max.len(),
        |chunk: int|
            if chunk < chunk_total(net) {
                chunk_bounds(bodies, chunk, net).1
            } else {
                chunk_max[chunk]
            },
    )
}

/// A box depends on its own bodies alone, whatever numbers they have.
pub proof fn lemma_bounds_local<S: Scalar>(
    part: Seq<AffineBody<S>>,
    whole: Seq<AffineBody<S>>,
    from: int,
    to: int,
    offset: int,
)
    requires
        forall|i: int| from <= i < to ==> (#[trigger] part[i]) == whole[offset + i],
    ensures
        bounds_of(part, from, to) == bounds_of(whole, offset + from, offset + to),
    decreases to - from,
{
    if from < to {
        lemma_bounds_local(part, whole, from, to - 1, offset);
        assert(part[to - 1] == whole[offset + (to - 1)]);
    }
}

/// Whether a point lies outside a box that is widened on all sides.
#[verifier::allow_in_spec]
pub fn point_outside_expanded_bounds<S: Scalar>(
    point: Vec3<S>,
    minimum: Vec3<S>,
    maximum: Vec3<S>,
    margin: S,
) -> (result: bool)
    returns
        (point.x.below(minimum.x.minus(margin)) || maximum.x.plus(margin).below(point.x)
            || point.y.below(minimum.y.minus(margin)) || maximum.y.plus(margin).below(point.y)
            || point.z.below(minimum.z.minus(margin)) || maximum.z.plus(margin).below(point.z)),
{
    point.x.lt(minimum.x.sub(margin)) || maximum.x.add(margin).lt(point.x) || point.y.lt(
        minimum.y.sub(margin),
    ) || maximum.y.add(margin).lt(point.y) || point.z.lt(minimum.z.sub(margin)) || maximum.z.add(
        margin,
    ).lt(point.z)
}

/// Whether a point lies outside the box around a capsule.
#[verifier::allow_in_spec]
pub fn point_outside_capsule_bounds<S: Scalar>(
    point: Vec3<S>,
    segment_start: Vec3<S>,
    segment_direction: Vec3<S>,
    radius: S,
) -> (result: bool)
    returns
        ({
            let midpoint = segment_start.plus(segment_direction.scaled(half()));
            let half_extents = segment_direction.magnitudes().scaled(half()).plus(
                Vec3::all(radius),
            );
            let distance = point.minus(midpoint).magnitudes();
            half_extents.x.below(distance.x) || half_extents.y.below(distance.y)
                || half_extents.z.below(distance.z)
        }),
{
    let midpoint = segment_start.add(segment_direction.scale(half()));
    let half_extents = segment_direction.abs().scale(half()).add(Vec3::splat(radius));
    let midpoint_delta = point.sub(midpoint).abs();
    half_extents.x.lt(midpoint_delta.x) || half_extents.y.lt(midpoint_delta.y)
        || half_extents.z.lt(midpoint_delta.z)
}

/// The distance of a ball from a hub that it touches, which is also how far outside its box
/// a chunk can be touched.
#[verifier::allow_in_spec]
pub fn ball_hub_distance<S: Scalar>() -> (result: S)
    returns
        ball_radius::<S>().plus(hub_radius()),
{
    ball_radius::<S>().add(hub_radius())
}

/// The distance of a ball from a rod that it touches.
#[verifier::allow_in_spec]
pub fn ball_rod_distance<S: Scalar>() -> (result: S)
    returns
        ball_radius::<S>().plus(rod_radius()),
{
    ball_radius::<S>().add(rod_radius())
}

/// How far along a segment its point closest to another point lies; halfway where the
/// segment has no length.
#[verifier::allow_in_spec]
pub fn closest_parameter<S: Scalar>(
    point: Vec3<S>,
    segment_start: Vec3<S>,
    segment_direction: Vec3<S>,
) -> (result: S)
    returns
        ({
            let denominator = segment_direction.squared();
            if contact_epsilon::<S>().below(denominator) {
                clamp_to_unit(
                    point.minus(segment_start).inner(segment_direction).over(denominator),
                )
            } else {
                half()
            }
        }),
{
    let denominator = segment_direction.length_squared();
    if contact_epsilon::<S>().lt(denominator) {
        clamp_to_unit(point.sub(segment_start).dot(segment_direction).div(denominator))
    } else {
        half()
    }
}

/// Where the contacts of the balls with the net stand: the bodies, the boxes of their chunks,
/// and the centre of the ball in hand.
pub struct NetContact<S> {
    pub bodies: Seq<AffineBody<S>>,
    pub chunk_min: Seq<Vec3<S>>,
    pub chunk_max: Seq<Vec3<S>>,
    pub sphere: Vec3<S>,
}

/// The bodies after the contact of a ball with a net body, and whether it pushed them. The
/// ball is taken to be at `sphere`.
pub open spec fn ball_net_push<S: Scalar>(
    bodies: Seq<AffineBody<S>>,
    previous: Seq<ControlPoints<S>>,
    sphere: Vec3<S>,
    ball: usize,
    body: usize,
) -> (Seq<AffineBody<S>>, bool) {
    let (start, end) = detailed_proxy(bodies[body as int]);
    let direction = end.minus(start);
    match bodies[body as int].kind {
        BodyKind::Hub { .. } => pair_contact_at(
            bodies,
            previous,
            center_of(ball),
            center_of(body),
            sphere,
            start,
            ball_hub_distance(),
            Vec3::y_unit(),
        ),
        BodyKind::Rod => {
            let t = closest_parameter(sphere, start, direction);
            if point_outside_capsule_bounds(sphere, start, direction, ball_rod_distance()) {
                (bodies, false)
            } else {
                pair_contact_at(
                    bodies,
                    previous,
                    center_of(ball),
                    Attachment {
                        body,
                        weights: interpolate_weights(collider_start(), collider_end(), t),
                    },
                    sphere,
                    start.plus(direction.scaled(t)),
                    ball_rod_distance(),
                    Vec3::y_unit(),
                )
            }
        },
        BodyKind::Ball => (bodies, false),
    }
}

pub fn project_ball_against_net_body<S: Scalar>(
    bodies: &mut [AffineBody<S>],
    previous_positions: &[ControlPoints<S>],
    sphere_position: Vec3<S>,
    ball: usize,
    body: usize,
) -> (applied: bool)
    requires
        old(bodies)@.len() == previous_positions@.len(),
        ball < old(bodies)@.len(),
        body < old(bodies)@.len(),
    ensures
        (final(bodies)@, applied) == ball_net_push(
            old(bodies)@,
            previous_positions@,
            sphere_position,
            ball,
            body,
        ),
{
    let net_body = bodies[body];
    match net_body.kind {
        BodyKind::Hub { .. } => {
            let (start_position, _) = detailed_contact_proxy(&net_body);
            project_attachment_pair_at_positions(
                bodies,
                previous_positions,
                center_of(ball),
                center_of(body),
                sphere_position,
                start_position,
                ball_hub_distance(),
                Vec3::unit_y(),
            )
        },
        BodyKind::Rod => {
            let (start_position, end_position) = detailed_contact_proxy(&net_body);
            let direction = end_position.sub(start_position);
            if point_outside_capsule_bounds(
                sphere_position,
                start_position,
                direction,
                ball_rod_distance(),
            ) {
                return false;
            }
            let t = closest_parameter(sphere_position, start_position, direction);
            let rod_attachment = Attachment {
                body,
                weights: interpolate_weights(collider_start(), collider_end(), t),
            };
            project_attachment_pair_at_positions(
                bodies,
                previous_positions,
                center_of(ball),
                rod_attachment,
                sphere_position,
                start_position.add(direction.scale(t)),
                ball_rod_distance(),
                Vec3::unit_y(),
            )
        },
        BodyKind::Ball => false,
    }
}

/// One contact of the ball in hand with a net body. After a push the ball's centre is taken
/// anew, and the box of the chunk grows to hold the net body where it is now.
pub open spec fn net_body_contact<S: Scalar>(
    state: NetContact<S>,
    previous: Seq<ControlPoints<S>>,
    ball: usize,
    chunk: int,
    body: usize,
) -> NetContact<S> {
    let (bodies, applied) = ball_net_push(state.bodies, previous, state.sphere, ball, body);
    if applied {
        let (start, end) = detailed_proxy(bodies[body as int]);
        NetContact {
            bodies,
            chunk_min: state.chunk_min.update(
                chunk,
                state.chunk_min[chunk].lesser(start).lesser(end),
            ),
            chunk_max: state.chunk_max.update(
                chunk,
                state.chunk_max[chunk].greater(start).greater(end),
            ),
            sphere: point_of(bodies[ball as int], hub_center()),
        }
    } else {
        NetContact { bodies, ..state }
    }
}

/// The contacts of the ball in hand with the bodies of a chunk, from `body` up to but not at
/// `end`.
pub open spec fn chunk_contacts<S: Scalar>(
    state: NetContact<S>,
    previous: Seq<ControlPoints<S>>,
    ball: usize,
    chunk: int,
    body: int,
    end: int,
) -> NetContact<S>
    decreases end - body,
{
    if body >= end {
        state
    } else {
        chunk_contacts(
            net_body_contact(state, previous, ball, chunk, body as usize),
            previous,
            ball,
            chunk,
            body + 1,
            end,
        )
    }
}

/// The contacts of the ball in hand with the chunks from `chunk` on. A chunk whose widened
/// box the ball's centre lies outside of is passed over.
pub open spec fn chunks_contacts<S: Scalar>(
    state: NetContact<S>,
    previous: Seq<ControlPoints<S>>,
    ball: usize,
    chunk: int,
    net_bodies: int,
) -> NetContact<S>
    decreases chunk_total(net_bodies) - chunk,
{
    if chunk >= chunk_total(net_bodies) {
        state
    } else if point_outside_expanded_bounds(
        state.sphere,
        state.chunk_min[chunk],
        state.chunk_max[chunk],
        ball_hub_distance(),
    ) {
        chunks_contacts(state, previous, ball, chunk + 1, net_bodies)
    } else {
        chunks_contacts(
            chunk_contacts(
                state,
                previous,
                ball,
                chunk,
                chunk * CONTACT_PROXY_CHUNK_SIZE,
                chunk_end(chunk, net_bodies),
            ),
            previous,
            ball,
            chunk + 1,
            net_bodies,
        )
    }
}

/// The contacts of the balls with the numbers from `number` on with the net.
pub open spec fn balls_net_contacts<S: Scalar>(
    bodies: Seq<AffineBody<S>>,
    chunk_min: Seq<Vec3<S>>,
    chunk_max: Seq<Vec3<S>>,
    previous: Seq<ControlPoints<S>>,
    balls: Seq<usize>,
    number: int,
) -> (Seq<AffineBody<S>>, Seq<Vec3<S>>, Seq<Vec3<S>>)
    decreases balls.len() - number,
{
    if number >= balls.len() {
        (bodies, chunk_min, chunk_max)
    } else {
        let ball = balls[number];
        let state = chunks_contacts(
            NetContact {
                bodies,
                chunk_min,
                chunk_max,
                sphere: point_of(bodies[ball as int], hub_center()),
            },
            previous,
            ball,
            0,
            net_body_total(balls, bodies.len()),
        );
        balls_net_contacts(
            state.bodies,
            state.chunk_min,
            state.chunk_max,
            previous,
            balls,
            number + 1,
        )
    }
}

/// The contacts of one ball with the bodies of a chunk.
fn project_ball_against_chunk<S: Scalar>(
    bodies: &mut [AffineBody<S>],
    previous_positions: &[ControlPoints<S>],
    sphere_position: Vec3<S>,
    ball: usize,
    chunk_min: &mut [Vec3<S>],
    chunk_max: &mut [Vec3<S>],
    chunk: usize,
    first_body: usize,
    end_body: usize,
) -> (result: Vec3<S>)
    requires
        old(bodies)@.len() == previous_positions@.len(),
        ball < old(bodies)@.len(),
        first_body <= end_body <= old(bodies)@.len(),
        chunk < old(chunk_min)@.len(),
        chunk < old(chunk_max)@.len(),
        forall|i: int|
            0 <= i < end_body ==> !((#[trigger] old(bodies)@[i]).kind is Ball),
    ensures
        ({
            let state = chunk_contacts(
                NetContact {
                    bodies: old(bodies)@,
                    chunk_min: old(chunk_min)@,
                    chunk_max: old(chunk_max)@,
                    sphere: sphere_position,
                },
                previous_positions@,
                ball,
                chunk as int,
                first_body as int,
                end_body as int,
            );
            &&& final(bodies)@ == state.bodies
            &&& final(chunk_min)@ == state.chunk_min
            &&& final(chunk_max)@ == state.chunk_max
            &&& result == state.sphere
        }),
        final(bodies)@.len() == old(bodies)@.len(),
        final(chunk_min)@.len() == old(chunk_min)@.len(),
        final(chunk_max)@.len() == old(chunk_max)@.len(),
        forall|i: int|
            0 <= i < old(bodies)@.len() ==> (#[trigger] final(bodies)@[i]).kind == old(
                bodies,
            )@[i].kind,
{
    let ghost whole = chunk_contacts(
        NetContact {
            bodies: bodies@,
            chunk_min: chunk_min@,
            chunk_max: chunk_max@,
            sphere: sphere_position,
        },
        previous_positions@,
        ball,
        chunk as int,
        first_body as int,
        end_body as int,
    );
    let mut sphere = sphere_position;
    let mut body: usize = first_body;
    while body < end_body
        invariant
            first_body <= body <= end_body <= bodies@.len(),
            bodies@.len() == old(bodies)@.len(),
            bodies@.len() == previous_positions@.len(),
            ball < bodies@.len(),
            chunk < chunk_min@.len(),
            chunk < chunk_max@.len(),
            chunk_min@.len() == old(chunk_min)@.len(),
            chunk_max@.len() == old(chunk_max)@.len(),
            forall|i: int|
                0 <= i < old(bodies)@.len() ==> (#[trigger] bodies@[i]).kind == old(
                    bodies,
                )@[i].kind,
            forall|i: int|
                0 <= i < end_body ==> !((#[trigger] bodies@[i]).kind is Ball),
            chunk_contacts(
                NetContact {
                    bodies: bodies@,
                    chunk_min: chunk_min@,
                    chunk_max: chunk_max@,
                    sphere,
                },
                previous_positions@,
                ball,
                chunk as int,
                body as int,
                end_body as int,
            ) == whole,
        decreases end_body - body,
    {
        let ghost before = bodies@;
        let applied = project_ball_against_net_body(
            bodies,
            previous_positions,
            sphere,
            ball,
            body,
        );
        assert forall|i: int| 0 <= i < bodies@.len() implies (#[trigger] bodies@[i]).kind
            == before[i].kind by {}
        if applied {
            sphere = attachment_position(bodies, center_of(ball));
            let (updated_start, updated_end) = detailed_contact_proxy(&bodies[body]);
            let minimum = chunk_min[chunk].min(updated_start).min(updated_end);
            let maximum = chunk_max[chunk].max(updated_start).max(updated_end);
            chunk_min[chunk] = minimum;
            chunk_max[chunk] = maximum;
        }
        body = body + 1;
    }
    sphere
}

/// The contacts of the balls with the net, ball by ball, chunk by chunk and body by body.
pub fn project_balls_against_chunked_net<S: Scalar>(
    bodies: &mut [AffineBody<S>],
    previous_positions: &[ControlPoints<S>],
    ball_indices: &[usize],
    chunk_min: &mut [Vec3<S>],
    chunk_max: &mut [Vec3<S>],
)
    requires
        old(bodies)@.len() == previous_positions@.len(),
        forall|i: int|
            0 <= i < ball_indices@.len() ==> (#[trigger] ball_indices@[i]) < old(bodies)@.len(),
        chunk_total(net_body_total(ball_indices@, old(bodies)@.len())) <= old(chunk_min)@.len(),
        chunk_total(net_body_total(ball_indices@, old(bodies)@.len())) <= old(chunk_max)@.len(),
        forall|i: int|
            0 <= i < net_body_total(ball_indices@, old(bodies)@.len()) ==> !((#[trigger] old(
                bodies,
            )@[i]).kind is Ball),
    ensures
        (final(bodies)@, final(chunk_min)@, final(chunk_max)@) == balls_net_contacts(
            old(bodies)@,
            old(chunk_min)@,
            old(chunk_max)@,
            previous_positions@,
            ball_indices@,
            0,
        ),
{
    let ghost whole = balls_net_contacts(
        bodies@,
        chunk_min@,
        chunk_max@,
        previous_positions@,
        ball_indices@,
        0,
    );
    let net_body_count: usize = if ball_indices.len() > 0 {
        ball_indices[0]
    } else {
        bodies.len()
    };
    let chunks: usize = chunk_count(net_body_count);
    let mut number: usize = 0;
    while number < ball_indices.len()
        invariant
            number <= ball_indices@.len(),
            bodies@.len() == old(bodies)@.len(),
            bodies@.len() == previous_positions@.len(),
            net_body_count == net_body_total(ball_indices@, bodies@.len()),
            net_body_count <= bodies@.len(),
            chunks == chunk_total(net_body_count as int),
            chunks <= chunk_min@.len(),
            chunks <= chunk_max@.len(),
            forall|i: int|
                0 <= i < ball_indices@.len() ==> (#[trigger] ball_indices@[i]) < bodies@.len(),
            forall|i: int|
                0 <= i < net_body_count ==> !((#[trigger] bodies@[i]).kind is Ball),
            balls_net_contacts(
                bodies@,
                chunk_min@,
                chunk_max@,
                previous_positions@,
                ball_indices@,
                number as int,
            ) == whole,
        decreases ball_indices@.len() - number,
    {
        let ball: usize = ball_indices[number];
        let mut sphere_position = attachment_position(bodies, center_of(ball));
        let ghost state = chunks_contacts(
            NetContact {
                bodies: bodies@,
                chunk_min: chunk_min@,
                chunk_max: chunk_max@,
                sphere: sphere_position,
            },
            previous_positions@,
            ball,
            0,
            net_body_count as int,
        );
        let mut chunk: usize = 0;
        let mut first_body: usize = 0;
        while chunk < chunks
            invariant
                chunk <= chunks,
                ball < bodies@.len(),
                bodies@.len() == old(bodies)@.len(),
                bodies@.len() == previous_positions@.len(),
                net_body_count <= bodies@.len(),
                chunks == chunk_total(net_body_count as int),
                chunks <= chunk_min@.len(),
                chunks <= chunk_max@.len(),
                first_body == (if chunk * CONTACT_PROXY_CHUNK_SIZE < net_body_count {
                    chunk * CONTACT_PROXY_CHUNK_SIZE
                } else {
                    net_body_count as int
                }),
                forall|i: int|
                    0 <= i < net_body_count ==> !((#[trigger] bodies@[i]).kind is Ball),
                chunks_contacts(
                    NetContact {
                        bodies: bodies@,
                        chunk_min: chunk_min@,
                        chunk_max: chunk_max@,
                        sphere: sphere_position,
                    },
                    previous_positions@,
                    ball,
                    chunk as int,
                    net_body_count as int,
                ) == state,
            decreases chunks - chunk,
        {
            let end_body: usize = if net_body_count - first_body > CONTACT_PROXY_CHUNK_SIZE {
                first_body + CONTACT_PROXY_CHUNK_SIZE
            } else {
                net_body_count
            };
            if !point_outside_expanded_bounds(
                sphere_position,
                chunk_min[chunk],
                chunk_max[chunk],
                ball_hub_distance(),
            ) {
                let ghost before = bodies@;
                sphere_position = project_ball_against_chunk(
                    bodies,
                    previous_positions,
                    sphere_position,
                    ball,
                    chunk_min,
                    chunk_max,
                    chunk,
                    first_body,
                    end_body,
                );
                assert forall|i: int| 0 <= i < net_body_count implies !(
                (#[trigger] bodies@[i]).kind is Ball) by {
                    assert(!(before[i].kind is Ball));
                }
            }
            chunk = chunk + 1;
            first_body = end_body;
        }
        number = number + 1;
    }
}

/// A contact between two bodies only moves them, and a fixed one not at all.
pub proof fn lemma_pair_contact_moves<S: Scalar>(
    bodies: Seq<AffineBody<S>>,
    previous: Seq<ControlPoints<S>>,
    a: Attachment<S>,
    b: Attachment<S>,
    a_position: Vec3<S>,
    b_position: Vec3<S>,
    minimum_distance: S,
    fallback: Vec3<S>,
)
    requires
        a.body < bodies.len(),
        b.body < bodies.len(),
    ensures
        only_moved(
            bodies,
            pair_contact_at(
                bodies,
                previous,
                a,
                b,
                a_position,
                b_position,
                minimum_distance,
                fallback,
            ).0,
        ),
{
}

/// The contacts between balls only move bodies, and no fixed one.
pub proof fn lemma_ball_pairs_move<S: Scalar>(
    bodies: Seq<AffineBody<S>>,
    previous: Seq<ControlPoints<S>>,
    balls: Seq<usize>,
    first: int,
    second: int,
)
    requires
        0 <= first < second,
        forall|i: int| 0 <= i < balls.len() ==> (#[trigger] balls[i]) < bodies.len(),
    ensures
        only_moved(bodies, ball_pairs_from(bodies, previous, balls, first, second)),
    decreases balls.len() - first, balls.len() - second,
{
    if first >= balls.len() {
    } else if second >= balls.len() {
        lemma_ball_pairs_move(bodies, previous, balls, first + 1, first + 2);
    } else {
        let a = center_of(balls[first]);
        let b = center_of(balls[second]);
        let fallback = pair_fallback(((first + second) % 3) as usize);
        lemma_pair_contact_moves(
            bodies,
            previous,
            a,
            b,
            point_of(bodies[a.body as int], a.weights),
            point_of(bodies[b.body as int], b.weights),
            ball_pair_distance(),
            fallback,
        );
        let next = pair_contact(bodies, previous, a, b, ball_pair_distance(), fallback);
        lemma_ball_pairs_move(next, previous, balls, first, second + 1);
        lemma_only_moved_transitive(
            bodies,
            next,
            ball_pairs_from(next, previous, balls, first, second + 1),
        );
    }
}

/// Whether one state of the contacts has the bodies of another, only moved, and as many boxes.
pub open spec fn contact_follows<S: Scalar>(before: NetContact<S>, after: NetContact<S>) -> bool {
    &&& only_moved(before.bodies, after.bodies)
    &&& after.chunk_min.len() == before.chunk_min.len()
    &&& after.chunk_max.len() == before.chunk_max.len()
}

proof fn lemma_net_body_contact_moves<S: Scalar>(
    state: NetContact<S>,
    previous: Seq<ControlPoints<S>>,
    ball: usize,
    chunk: int,
    body: usize,
)
    requires
        ball < state.bodies.len(),
        body < state.bodies.len(),
        0 <= chunk < state.chunk_min.len(),
        chunk < state.chunk_max.len(),
    ensures
        contact_follows(state, net_body_contact(state, previous, ball, chunk, body)),
{
    let bodies = state.bodies;
    let (start, end) = detailed_proxy(bodies[body as int]);
    let direction = end.minus(start);
    let t = closest_parameter(state.sphere, start, direction);
    lemma_pair_contact_moves(
        bodies,
        previous,
        center_of(ball),
        center_of(body),
        state.sphere,
        start,
        ball_hub_distance(),
        Vec3::y_unit(),
    );
    lemma_pair_contact_moves(
        bodies,
        previous,
        center_of(ball),
        Attachment { body, weights: interpolate_weights(collider_start(), collider_end(), t) },
        state.sphere,
        start.plus(direction.scaled(t)),
        ball_rod_distance(),
        Vec3::y_unit(),
    );
}

proof fn lemma_chunk_contacts_move<S: Scalar>(
    state: NetContact<S>,
    previous: Seq<ControlPoints<S>>,
    ball: usize,
    chunk: int,
    body: int,
    end: int,
)
    requires
        ball < state.bodies.len(),
        0 <= body,
        0 <= chunk < state.chunk_min.len(),
        chunk < state.chunk_max.len(),
        end <= state.bodies.len() <= usize::MAX,
    ensures
        contact_follows(state, chunk_contacts(state, previous, ball, chunk, body, end)),
    decreases end - body,
{
    if body < end {
        lemma_net_body_contact_moves(state, previous, ball, chunk, body as usize);
        let next = net_body_contact(state, previous, ball, chunk, body as usize);
        lemma_chunk_contacts_move(next, previous, ball, chunk, body + 1, end);
        lemma_only_moved_transitive(
            state.bodies,
            next.bodies,
            chunk_contacts(next, previous, ball, chunk, body + 1, end).bodies,
        );
    }
}

/// The contacts of one ball with the net only move bodies, and no fixed one.
pub proof fn lemma_chunks_contacts_move<S: Scalar>(
    state: NetContact<S>,
    previous: Seq<ControlPoints<S>>,
    ball: usize,
    chunk: int,
    net_bodies: int,
)
    requires
        ball < state.bodies.len(),
        0 <= chunk,
        chunk_total(net_bodies) <= state.chunk_min.len(),
        chunk_total(net_bodies) <= state.chunk_max.len(),
        net_bodies <= state.bodies.len() <= usize::MAX,
    ensures
        contact_follows(state, chunks_contacts(state, previous, ball, chunk, net_bodies)),
    decreases chunk_total(net_bodies) - chunk,
{
    if chunk < chunk_total(net_bodies) {
        let first = chunk * CONTACT_PROXY_CHUNK_SIZE;
        let end = chunk_end(chunk, net_bodies);
        lemma_chunk_contacts_move(state, previous, ball, chunk, first, end);
        let next = chunk_contacts(state, previous, ball, chunk, first, end);
        lemma_chunks_contacts_move(state, previous, ball, chunk + 1, net_bodies);
        lemma_chunks_contacts_move(next, previous, ball, chunk + 1, net_bodies);
        lemma_only_moved_transitive(
            state.bodies,
            next.bodies,
            chunks_contacts(next, previous, ball, chunk + 1, net_bodies).bodies,
        );
    }
}

/// The contacts of balls with the net only move bodies, and no fixed one. There are as many
/// boxes after them as before.
pub proof fn lemma_balls_net_contacts_move<S: Scalar>(
    bodies: Seq<AffineBody<S>>,
    chunk_min: Seq<Vec3<S>>,
    chunk_max: Seq<Vec3<S>>,
    previous: Seq<ControlPoints<S>>,
    balls: Seq<usize>,
    number: int,
)
    requires
        0 <= number,
        chunk_total(net_body_total(balls, bodies.len())) <= chunk_min.len(),
        chunk_total(net_body_total(balls, bodies.len())) <= chunk_max.len(),
        bodies.len() <= usize::MAX,
        forall|i: int| 0 <= i < balls.len() ==> (#[trigger] balls[i]) < bodies.len(),
    ensures
        ({
            let after = balls_net_contacts(bodies, chunk_min, chunk_max, previous, balls, number);
            &&& only_moved(bodies, after.0)
            &&& after.1.len() == chunk_min.len()
            &&& after.2.len() == chunk_max.len()
        }),
    decreases balls.len() - number,
{
    if number < balls.len() {
        let ball = balls[number];
        let state = NetContact {
            bodies,
            chunk_min,
            chunk_max,
            sphere: point_of(bodies[ball as int], hub_center()),
        };
        let net = net_body_total(balls, bodies.len());
        lemma_chunks_contacts_move(state, previous, ball, 0, net);
        let next = chunks_contacts(state, previous, ball, 0, net);
        lemma_balls_net_contacts_move(
            next.bodies,
            next.chunk_min,
            next.chunk_max,
            previous,
            balls,
            number + 1,
        );
        lemma_only_moved_transitive(
            bodies,
            next.bodies,
            balls_net_contacts(
                next.bodies,
                next.chunk_min,
                next.chunk_max,
                previous,
                balls,
                number + 1,
            ).0,
        );
    }
}

/// The bodies and the boxes after one pass of all ball contacts. A pass may use the boxes of
/// the pass before.
pub open spec fn ball_pass<S: Scalar>(
    bodies: Seq<AffineBody<S>>,
    chunk_min: Seq<Vec3<S>>,
    chunk_max: Seq<Vec3<S>>,
    previous: Seq<ControlPoints<S>>,
    balls: Seq<usize>,
    rebuild: bool,
) -> (Seq<AffineBody<S>>, Seq<Vec3<S>>, Seq<Vec3<S>>) {
    let paired = ball_pairs_from(bodies, previous, balls, 0, 1);
    if rebuild {
        balls_net_contacts(
            paired,
            rebuilt_minima(paired, balls, chunk_min),
            rebuilt_maxima(paired, balls, chunk_max),
            previous,
            balls,
            0,
        )
    } else {
        balls_net_contacts(paired, chunk_min, chunk_max, previous, balls, 0)
    }
}

/// The passes of the ball contacts from the pass of the given number on. Only the first
/// computes the boxes.
pub open spec fn ball_passes<S: Scalar>(
    bodies: Seq<AffineBody<S>>,
    chunk_min: Seq<Vec3<S>>,
    chunk_max: Seq<Vec3<S>>,
    previous: Seq<ControlPoints<S>>,
    balls: Seq<usize>,
    pass: int,
) -> (Seq<AffineBody<S>>, Seq<Vec3<S>>, Seq<Vec3<S>>)
    decreases CONTACT_PASSES - pass,
{
    if pass >= CONTACT_PASSES {
        (bodies, chunk_min, chunk_max)
    } else {
        let next = ball_pass(bodies, chunk_min, chunk_max, previous, balls, pass == 0);
        ball_passes(next.0, next.1, next.2, previous, balls, pass + 1)
    }
}

/// One pass of all ball contacts only moves bodies, and no fixed one.
pub proof fn lemma_ball_pass_moves<S: Scalar>(
    bodies: Seq<AffineBody<S>>,
    chunk_min: Seq<Vec3<S>>,
    chunk_max: Seq<Vec3<S>>,
    previous: Seq<ControlPoints<S>>,
    balls: Seq<usize>,
    rebuild: bool,
)
    requires
        bodies.len() <= usize::MAX,
        chunk_total(net_body_total(balls, bodies.len())) <= chunk_min.len(),
        chunk_total(net_body_total(balls, bodies.len())) <= chunk_max.len(),
        forall|i: int| 0 <= i < balls.len() ==> (#[trigger] balls[i]) < bodies.len(),
    ensures
        ({
            let after = ball_pass(bodies, chunk_min, chunk_max, previous, balls, rebuild);
            &&& only_moved(bodies, after.0)
            &&& after.1.len() == chunk_min.len()
            &&& after.2.len() == chunk_max.len()
        }),
{
    let paired = ball_pairs_from(bodies, previous, balls, 0, 1);
    lemma_ball_pairs_move(bodies, previous, balls, 0, 1);
    let minima = if rebuild {
        rebuilt_minima(paired, balls, chunk_min)
    } else {
        chunk_min
    };
    let maxima = if rebuild {
        rebuilt_maxima(paired, balls, chunk_max)
    } else {
        chunk_max
    };
    lemma_balls_net_contacts_move(paired, minima, maxima, previous, balls, 0);
    lemma_only_moved_transitive(
        bodies,
        paired,
        balls_net_contacts(paired, minima, maxima, previous, balls, 0).0,
    );
}

/// The passes of the ball contacts only move bodies, and no fixed one.
pub proof fn lemma_ball_passes_move<S: Scalar>(
    bodies: Seq<AffineBody<S>>,
    chunk_min: Seq<Vec3<S>>,
    chunk_max: Seq<Vec3<S>>,
    previous: Seq<ControlPoints<S>>,
    balls: Seq<usize>,
    pass: int,
)
    requires
        0 <= pass,
        bodies.len() <= usize::MAX,
        chunk_total(net_body_total(balls, bodies.len())) <= chunk_min.len(),
        chunk_total(net_body_total(balls, bodies.len())) <= chunk_max.len(),
        forall|i: int| 0 <= i < balls.len() ==> (#[trigger] balls[i]) < bodies.len(),
    ensures
        ({
            let after = ball_passes(bodies, chunk_min, chunk_max, previous, balls, pass);
            &&& only_moved(bodies, after.0)
            &&& after.1.len() == chunk_min.len()
            &&& after.2.len() == chunk_max.len()
        }),
    decreases CONTACT_PASSES - pass,
{
    if pass < CONTACT_PASSES {
        lemma_ball_pass_moves(bodies, chunk_min, chunk_max, previous, balls, pass == 0);
        let next = ball_pass(bodies, chunk_min, chunk_max, previous, balls, pass == 0);
        lemma_ball_passes_move(next.0, next.1, next.2, previous, balls, pass + 1);
        lemma_only_moved_transitive(
            bodies,
            next.0,
            ball_passes(next.0, next.1, next.2, previous, balls, pass + 1).0,
        );
    }
}

/// Whether the balls of a list of bodies are where the contacts expect them: none before the
/// first that is named, and boxes for all chunks of what comes before it.
pub open spec fn balls_in_place<S: Scalar>(
    bodies: Seq<AffineBody<S>>,
    balls: Seq<usize>,
    chunk_min: Seq<Vec3<S>>,
    chunk_max: Seq<Vec3<S>>,
) -> bool {
    &&& forall|i: int| 0 <= i < balls.len() ==> (#[trigger] balls[i]) < bodies.len()
    &&& chunk_total(net_body_total(balls, bodies.len())) <= chunk_min.len()
    &&& chunk_total(net_body_total(balls, bodies.len())) <= chunk_max.len()
    &&& forall|i: int|
        0 <= i < net_body_total(balls, bodies.len()) ==> !((#[trigger] bodies[i]).kind is Ball)
}

/// One pass of all ball contacts.
fn run_ball_pass<S: Scalar>(
    bodies: &mut [AffineBody<S>],
    previous_positions: &[ControlPoints<S>],
    ball_indices: &[usize],
    chunk_min: &mut [Vec3<S>],
    chunk_max: &mut [Vec3<S>],
    rebuild: bool,
)
    requires
        old(bodies)@.len() == previous_positions@.len(),
        balls_in_place(old(bodies)@, ball_indices@, old(chunk_min)@, old(chunk_max)@),
    ensures
        (final(bodies)@, final(chunk_min)@, final(chunk_max)@) == ball_pass(
            old(bodies)@,
            old(chunk_min)@,
            old(chunk_max)@,
            previous_positions@,
            ball_indices@,
            rebuild,
        ),
        balls_in_place(final(bodies)@, ball_indices@, final(chunk_min)@, final(chunk_max)@),
        only_moved(old(bodies)@, final(bodies)@),
{
    proof {
        assert(bodies@.len() == bodies.len());
        lemma_ball_pairs_move(bodies@, previous_positions@, ball_indices@, 0, 1);
        lemma_ball_pass_moves(
            bodies@,
            chunk_min@,
            chunk_max@,
            previous_positions@,
            ball_indices@,
            rebuild,
        );
    }
    let ghost before = bodies@;
    project_ball_pairs(bodies, previous_positions, ball_indices);
    proof {
        assert forall|i: int|
            0 <= i < net_body_total(ball_indices@, bodies@.len()) implies !(
        (#[trigger] bodies@[i]).kind is Ball) by {
            assert(body_only_moved(before[i], bodies@[i]));
        }
    }
    if rebuild {
        rebuild_ball_contact_chunk_bounds(bodies, ball_indices, chunk_min, chunk_max);
    }
    project_balls_against_chunked_net(
        bodies,
        previous_positions,
        ball_indices,
        chunk_min,
        chunk_max,
    );
    proof {
        assert forall|i: int|
            0 <= i < net_body_total(ball_indices@, bodies@.len()) implies !(
        (#[trigger] bodies@[i]).kind is Ball) by {
            assert(body_only_moved(before[i], bodies@[i]));
        }
    }
}

/// All ball contacts once, with boxes computed for them.
pub fn project_ball_contacts<S: Scalar>(
    bodies: &mut [AffineBody<S>],
    previous_positions: &[ControlPoints<S>],
    ball_indices: &[usize],
    chunk_min: &mut [Vec3<S>],
    chunk_max: &mut [Vec3<S>],
)
    requires
        old(bodies)@.len() == previous_positions@.len(),
        balls_in_place(old(bodies)@, ball_indices@, old(chunk_min)@, old(chunk_max)@),
    ensures
        (final(bodies)@, final(chunk_min)@, final(chunk_max)@) == ball_pass(
            old(bodies)@,
            old(chunk_min)@,
            old(chunk_max)@,
            previous_positions@,
            ball_indices@,
            true,
        ),
{
    run_ball_pass(bodies, previous_positions, ball_indices, chunk_min, chunk_max, true);
}

/// The passes of all ball contacts of a projection round.
pub fn project_ball_contact_passes<S: Scalar>(
    bodies: &mut [AffineBody<S>],
    previous_positions: &[ControlPoints<S>],
    ball_indices: &[usize],
    chunk_min: &mut [Vec3<S>],
    chunk_max: &mut [Vec3<S>],
)
    requires
        old(bodies)@.len() == previous_positions@.len(),
        balls_in_place(old(bodies)@, ball_indices@, old(chunk_min)@, old(chunk_max)@),
    ensures
        (final(bodies)@, final(chunk_min)@, final(chunk_max)@) == ball_passes(
            old(bodies)@,
            old(chunk_min)@,
            old(chunk_max)@,
            previous_positions@,
            ball_indices@,
            0,
        ),
{
    let mut pass: usize = 0;
    while pass < CONTACT_PASSES
        invariant
            pass <= CONTACT_PASSES,
            bodies@.len() == previous_positions@.len(),
            balls_in_place(bodies@, ball_indices@, chunk_min@, chunk_max@),
            ball_passes(
                bodies@,
                chunk_min@,
                chunk_max@,
                previous_positions@,
                ball_indices@,
                pass as int,
            ) == ball_passes(
                old(bodies)@,
                old(chunk_min)@,
                old(chunk_max)@,
                previous_positions@,
                ball_indices@,
                0,
            ),
        decreases CONTACT_PASSES - pass,
    {
        run_ball_pass(
            bodies,
            previous_positions,
            ball_indices,
            chunk_min,
            chunk_max,
            pass == 0,
        );
        pass = pass + 1;
    }
}

} // verus!
