//! Hubs and balls never turn: in exact arithmetic their points always lie about their centre
//! as they did at rest.

use crate::attachment::{
    collider_end, collider_start, interpolate_weights, inverse_weight, pair_contact,
    pair_contact_at, pair_push, parting_normal, point_of, pushed, safe_normal,
};
use crate::balls::{
    ball_hub_distance, ball_net_push, ball_pair_distance, ball_pairs_from, ball_pass, ball_passes,
    ball_rod_distance, balls_net_contacts, center_of, chunk_contacts, chunk_end, chunks_contacts,
    closest_parameter, detailed_proxy, lemma_ball_pairs_move, lemma_ball_pass_moves,
    lemma_chunks_contacts_move, lemma_pair_contact_moves, net_body_contact, net_body_total,
    pair_fallback, rebuilt_maxima, rebuilt_minima, NetContact,
};
use crate::body::{
    body_only_moved, body_rest_points, centroid, hub_center, only_moved, weighted_point, AffineBody,
    ControlPoints, Weights,
};
use crate::constants::{
    contact_epsilon, hub_radius, CONTACT_PASSES, CONTACT_PROXY_CHUNK_SIZE, COROTATED_ITERATIONS,
};
use crate::cylinder::{cylinder_contact, cylinder_contacts, reject_from_x_axis, CylinderCollider};
use crate::field::{exact, lemma_associate, lemma_commute};
use crate::grid::{hub_total, lemma_counts, net_total};
use crate::joints::{chunk_total, Attachment};
use crate::net::{ball_position, fits, hub_position, initial_body};
use crate::scalar::{quarter, Scalar};
use crate::scene::DemoScene;
use crate::simulation::{
    begun, contacted, initial_motion, jointed, layout, lemma_balls_in_place, lemma_begun,
    lemma_contacted, lemma_jointed, lemma_shaped, projected, shaped, stepped, Motion, Setup,
    Variant,
};
use crate::vector::Vec3;
use vstd::prelude::*;

verus! {

/// Points about a centre.
pub open spec fn about<S: Scalar>(center: Vec3<S>, offsets: ControlPoints<S>) -> ControlPoints<S> {
    ControlPoints {
        p0: center.plus(offsets.p0),
        p1: center.plus(offsets.p1),
        p2: center.plus(offsets.p2),
        p3: center.plus(offsets.p3),
    }
}

/// Whether a body has not turned: its points lie about some centre as at rest.
pub open spec fn unturned<S: Scalar>(body: AffineBody<S>) -> bool {
    exists|center: Vec3<S>| body.positions == #[trigger] about(center, body_rest_points(body.kind))
}

/// Whether no hub and no ball of a list has turned.
pub open spec fn none_turned<S: Scalar>(bodies: Seq<AffineBody<S>>) -> bool {
    forall|i: int|
        0 <= i < bodies.len() && !((#[trigger] bodies[i]).kind is Rod) ==> unturned(bodies[i])
}

proof fn lemma_shifted_point<S: Scalar>(center: Vec3<S>, offset: Vec3<S>, shift: Vec3<S>)
    requires
        exact::<S>(),
    ensures
        center.plus(offset).plus(shift) == center.plus(shift).plus(offset),
{
    lemma_associate(center.x, offset.x, shift.x);
    lemma_associate(center.y, offset.y, shift.y);
    lemma_associate(center.z, offset.z, shift.z);
    lemma_commute(offset.x, shift.x);
    lemma_commute(offset.y, shift.y);
    lemma_commute(offset.z, shift.z);
    lemma_associate(center.x, shift.x, offset.x);
    lemma_associate(center.y, shift.y, offset.y);
    lemma_associate(center.z, shift.z, offset.z);
}

/// A body whose points all move alike does not turn.
proof fn lemma_shift_keeps<S: Scalar>(before: AffineBody<S>, after: AffineBody<S>, shift: Vec3<S>)
    requires
        exact::<S>(),
        unturned(before),
        after.kind == before.kind,
        after.positions == (ControlPoints {
            p0: before.positions.p0.plus(shift),
            p1: before.positions.p1.plus(shift),
            p2: before.positions.p2.plus(shift),
            p3: before.positions.p3.plus(shift),
        }),
    ensures
        unturned(after),
{
    let rest = body_rest_points::<S>(before.kind);
    let center = choose|center: Vec3<S>| before.positions == #[trigger] about(center, rest);
    lemma_shifted_point(center, rest.p0, shift);
    lemma_shifted_point(center, rest.p1, shift);
    lemma_shifted_point(center, rest.p2, shift);
    lemma_shifted_point(center, rest.p3, shift);
    assert(after.positions == about(center.plus(shift), rest));
}

/// A push at its centre does not turn a body.
proof fn lemma_push_keeps<S: Scalar>(body: AffineBody<S>, direction: Vec3<S>, multiplier: S)
    requires
        exact::<S>(),
        unturned(body),
    ensures
        unturned(pushed(body, hub_center(), direction, multiplier)),
{
    if !body.fixed {
        let scale = body.inverse_diagonal.times(multiplier);
        lemma_shift_keeps(
            body,
            pushed(body, hub_center(), direction, multiplier),
            direction.scaled(scale.times(quarter())),
        );
    }
}

/// A contact of a ball at its centre, with a hub or a ball at its centre or with a rod
/// anywhere, turns no hub and no ball.
proof fn lemma_pair_keeps<S: Scalar>(
    bodies: Seq<AffineBody<S>>,
    previous: Seq<ControlPoints<S>>,
    ball: usize,
    b: Attachment<S>,
    a_position: Vec3<S>,
    b_position: Vec3<S>,
    minimum_distance: S,
    fallback: Vec3<S>,
)
    requires
        exact::<S>(),
        none_turned(bodies),
        ball < bodies.len(),
        b.body < bodies.len(),
        !(bodies[ball as int].kind is Rod),
        bodies[b.body as int].kind is Rod || b.weights == hub_center::<S>(),
    ensures
        none_turned(
            pair_contact_at(
                bodies,
                previous,
                center_of(ball),
                b,
                a_position,
                b_position,
                minimum_distance,
                fallback,
            ).0,
        ),
{
    let after = pair_contact_at(
        bodies,
        previous,
        center_of(ball),
        b,
        a_position,
        b_position,
        minimum_distance,
        fallback,
    ).0;
    assert forall|i: int| 0 <= i < after.len() && !((#[trigger] after[i]).kind is Rod) implies
        unturned(after[i]) by {
        let body = bodies[i];
        assert(after[i].kind == body.kind);
        assert(unturned(body));
        if ball != b.body && (i == ball || i == b.body) && after[i] != body {
            let first = pair_push(
                (bodies[ball as int], hub_center(), previous[ball as int], a_position),
                (bodies[b.body as int], b.weights, previous[b.body as int], b_position),
                minimum_distance,
                fallback,
            );
            lemma_pushed_apart_keeps(
                bodies[ball as int],
                previous[ball as int],
                a_position,
                bodies[b.body as int],
                b.weights,
                previous[b.body as int],
                b_position,
                minimum_distance,
                fallback,
            );
            assert(after[i] == (if i == ball {
                first.0
            } else {
                first.1
            }));
        }
    }
}

proof fn lemma_pushed_apart_keeps<S: Scalar>(
    a: AffineBody<S>,
    a_previous: ControlPoints<S>,
    a_position: Vec3<S>,
    b: AffineBody<S>,
    b_weights: Weights<S>,
    b_previous: ControlPoints<S>,
    b_position: Vec3<S>,
    minimum_distance: S,
    fallback: Vec3<S>,
)
    requires
        exact::<S>(),
    ensures
        ({
            let push = pair_push(
                (a, hub_center(), a_previous, a_position),
                (b, b_weights, b_previous, b_position),
                minimum_distance,
                fallback,
            );
            &&& unturned(a) ==> unturned(push.0)
            &&& unturned(b) && b_weights == hub_center::<S>() ==> unturned(push.1)
        }),
{
    let delta = a_position.minus(b_position);
    let normal = parting_normal(
        delta,
        weighted_point(a_previous, hub_center()).minus(
            weighted_point(b_previous, b_weights),
        ),
        fallback,
    );
    let multiplier = minimum_distance.minus(delta.squared().root()).over(
        inverse_weight(a, hub_center()).plus(
            inverse_weight(b, b_weights),
        ),
    );
    if unturned(a) {
        lemma_push_keeps(a, normal, multiplier);
    }
    if unturned(b) {
        lemma_push_keeps(b, normal.negated(), multiplier);
    }
}

/// Whether the balls that are named are no rods.
spec fn are_balls<S: Scalar>(bodies: Seq<AffineBody<S>>, balls: Seq<usize>) -> bool {
    forall|i: int|
        0 <= i < balls.len() ==> (#[trigger] balls[i]) < bodies.len() && !(
        bodies[balls[i] as int].kind is Rod)
}

proof fn lemma_moved_are_balls<S: Scalar>(
    before: Seq<AffineBody<S>>,
    after: Seq<AffineBody<S>>,
    balls: Seq<usize>,
)
    requires
        only_moved(before, after),
        are_balls(before, balls),
    ensures
        are_balls(after, balls),
{
    assert forall|i: int| 0 <= i < balls.len() implies (#[trigger] balls[i]) < after.len() && !(
    after[balls[i] as int].kind is Rod) by {
        assert(body_only_moved(before[balls[i] as int], after[balls[i] as int]));
    }
}

proof fn lemma_ball_pairs_keep<S: Scalar>(
    bodies: Seq<AffineBody<S>>,
    previous: Seq<ControlPoints<S>>,
    balls: Seq<usize>,
    first: int,
    second: int,
)
    requires
        exact::<S>(),
        0 <= first < second,
        none_turned(bodies),
        are_balls(bodies, balls),
    ensures
        none_turned(ball_pairs_from(bodies, previous, balls, first, second)),
    decreases balls.len() - first, balls.len() - second,
{
    if first >= balls.len() {
    } else if second >= balls.len() {
        lemma_ball_pairs_keep(bodies, previous, balls, first + 1, first + 2);
    } else {
        let a = center_of(balls[first]);
        let b = center_of(balls[second]);
        let fallback = pair_fallback(((first + second) % 3) as usize);
        let a_position = point_of(bodies[a.body as int], a.weights);
        let b_position = point_of(bodies[b.body as int], b.weights);
        lemma_pair_keeps(
            bodies,
            previous,
            balls[first],
            b,
            a_position,
            b_position,
            ball_pair_distance(),
            fallback,
        );
        lemma_pair_contact_moves(
            bodies,
            previous,
            a,
            b,
            a_position,
            b_position,
            ball_pair_distance(),
            fallback,
        );
        let next = pair_contact(bodies, previous, a, b, ball_pair_distance(), fallback);
        lemma_moved_are_balls(bodies, next, balls);
        lemma_ball_pairs_keep(next, previous, balls, first, second + 1);
    }
}

/// Whether no hub and no ball of a state of the contacts has turned, and the ball in hand is
/// no rod.
spec fn state_unturned<S: Scalar>(state: NetContact<S>, ball: usize) -> bool {
    &&& none_turned(state.bodies)
    &&& ball < state.bodies.len()
    &&& !(state.bodies[ball as int].kind is Rod)
}

proof fn lemma_net_body_keeps<S: Scalar>(
    state: NetContact<S>,
    previous: Seq<ControlPoints<S>>,
    ball: usize,
    chunk: int,
    body: usize,
)
    requires
        exact::<S>(),
        state_unturned(state, ball),
        body < state.bodies.len(),
    ensures
        state_unturned(net_body_contact(state, previous, ball, chunk, body), ball),
        only_moved(
            state.bodies,
            net_body_contact(state, previous, ball, chunk, body).bodies,
        ),
{
    let bodies = state.bodies;
    let (start, end) = detailed_proxy(bodies[body as int]);
    let direction = end.minus(start);
    let t = closest_parameter(state.sphere, start, direction);
    let at_rod = Attachment {
        body,
        weights: interpolate_weights(collider_start::<S>(), collider_end(), t),
    };
    lemma_pair_contact_moves(
        bodies,
        previous,
        center_of(ball),
        center_of(body),
        state.sphere,
        start,
        ball_hub_distance(),
        Vec3::y_unit(),
    );
    lemma_pair_contact_moves(
        bodies,
        previous,
        center_of(ball),
        at_rod,
        state.sphere,
        start.plus(direction.scaled(t)),
        ball_rod_distance(),
        Vec3::y_unit(),
    );
    lemma_pair_keeps(
        bodies,
        previous,
        ball,
        center_of(body),
        state.sphere,
        start,
        ball_hub_distance(),
        Vec3::y_unit(),
    );
    if bodies[body as int].kind is Rod {
        lemma_pair_keeps(
            bodies,
            previous,
            ball,
            at_rod,
            state.sphere,
            start.plus(direction.scaled(t)),
            ball_rod_distance(),
            Vec3::y_unit(),
        );
    }
    let next = net_body_contact(state, previous, ball, chunk, body);
    assert(next.bodies == ball_net_push(bodies, previous, state.sphere, ball, body).0);
    assert(body_only_moved(bodies[ball as int], next.bodies[ball as int]));
}

proof fn lemma_chunk_keeps<S: Scalar>(
    state: NetContact<S>,
    previous: Seq<ControlPoints<S>>,
    ball: usize,
    chunk: int,
    body: int,
    end: int,
)
    requires
        exact::<S>(),
        state_unturned(state, ball),
        0 <= body,
        end <= state.bodies.len() <= usize::MAX,
    ensures
        state_unturned(chunk_contacts(state, previous, ball, chunk, body, end), ball),
        chunk_contacts(state, previous, ball, chunk, body, end).bodies.len()
            == state.bodies.len(),
    decreases end - body,
{
    if body < end {
        lemma_net_body_keeps(state, previous, ball, chunk, body as usize);
        let next = net_body_contact(state, previous, ball, chunk, body as usize);
        lemma_chunk_keeps(next, previous, ball, chunk, body + 1, end);
    }
}

proof fn lemma_chunks_keep<S: Scalar>(
    state: NetContact<S>,
    previous: Seq<ControlPoints<S>>,
    ball: usize,
    chunk: int,
    net_bodies: int,
)
    requires
        exact::<S>(),
        state_unturned(state, ball),
        0 <= chunk,
        net_bodies <= state.bodies.len() <= usize::MAX,
    ensures
        state_unturned(chunks_contacts(state, previous, ball, chunk, net_bodies), ball),
    decreases chunk_total(net_bodies) - chunk,
{
    if chunk < chunk_total(net_bodies) {
        let first = chunk * CONTACT_PROXY_CHUNK_SIZE;
        let end = chunk_end(chunk, net_bodies);
        lemma_chunk_keeps(state, previous, ball, chunk, first, end);
        let next = chunk_contacts(state, previous, ball, chunk, first, end);
        lemma_chunks_keep(state, previous, ball, chunk + 1, net_bodies);
        lemma_chunks_keep(next, previous, ball, chunk + 1, net_bodies);
    }
}

proof fn lemma_balls_net_keep<S: Scalar>(
    bodies: Seq<AffineBody<S>>,
    chunk_min: Seq<Vec3<S>>,
    chunk_max: Seq<Vec3<S>>,
    previous: Seq<ControlPoints<S>>,
    balls: Seq<usize>,
    number: int,
)
    requires
        exact::<S>(),
        0 <= number,
        none_turned(bodies),
        are_balls(bodies, balls),
        chunk_total(net_body_total(balls, bodies.len())) <= chunk_min.len(),
        chunk_total(net_body_total(balls, bodies.len())) <= chunk_max.len(),
        bodies.len() <= usize::MAX,
    ensures
        none_turned(balls_net_contacts(bodies, chunk_min, chunk_max, previous, balls, number).0),
    decreases balls.len() - number,
{
    if number < balls.len() {
        let ball = balls[number];
        let state = NetContact {
            bodies,
            chunk_min,
            chunk_max,
            sphere: point_of(bodies[ball as int], hub_center()),
        };
        let net = net_body_total(balls, bodies.len());
        assert(balls[0] < bodies.len());
        lemma_chunks_keep(state, previous, ball, 0, net);
        lemma_chunks_contacts_move(state, previous, ball, 0, net);
        let next = chunks_contacts(state, previous, ball, 0, net);
        lemma_moved_are_balls(bodies, next.bodies, balls);
        lemma_balls_net_keep(
            next.bodies,
            next.chunk_min,
            next.chunk_max,
            previous,
            balls,
            number + 1,
        );
    }
}

proof fn lemma_ball_passes_keep<S: Scalar>(
    bodies: Seq<AffineBody<S>>,
    chunk_min: Seq<Vec3<S>>,
    chunk_max: Seq<Vec3<S>>,
    previous: Seq<ControlPoints<S>>,
    balls: Seq<usize>,
    pass: int,
)
    requires
        exact::<S>(),
        0 <= pass,
        none_turned(bodies),
        are_balls(bodies, balls),
        bodies.len() <= usize::MAX,
        chunk_total(net_body_total(balls, bodies.len())) <= chunk_min.len(),
        chunk_total(net_body_total(balls, bodies.len())) <= chunk_max.len(),
    ensures
        none_turned(ball_passes(bodies, chunk_min, chunk_max, previous, balls, pass).0),
    decreases CONTACT_PASSES - pass,
{
    if pass < CONTACT_PASSES {
        let rebuild = pass == 0;
        let paired = ball_pairs_from(bodies, previous, balls, 0, 1);
        let minima = if rebuild {
            rebuilt_minima(paired, balls, chunk_min)
        } else {
            chunk_min
        };
        let maxima = if rebuild {
            rebuilt_maxima(paired, balls, chunk_max)
        } else {
            chunk_max
        };
        lemma_ball_pairs_keep(bodies, previous, balls, 0, 1);
        lemma_ball_pairs_move(bodies, previous, balls, 0, 1);
        lemma_moved_are_balls(bodies, paired, balls);
        lemma_balls_net_keep(paired, minima, maxima, previous, balls, 0);
        lemma_ball_pass_moves(bodies, chunk_min, chunk_max, previous, balls, rebuild);
        let next = ball_pass(bodies, chunk_min, chunk_max, previous, balls, rebuild);
        lemma_moved_are_balls(bodies, next.0, balls);
        lemma_ball_passes_keep(next.0, next.1, next.2, previous, balls, pass + 1);
    }
}

/// Contacts with the cylinder do not turn a hub.
proof fn lemma_cylinder_keeps<S: Scalar>(
    body: AffineBody<S>,
    previous: ControlPoints<S>,
    cylinder: CylinderCollider<S>,
    passes: nat,
)
    requires
        exact::<S>(),
        unturned(body),
        !(body.kind is Rod),
    ensures
        unturned(cylinder_contacts(body, previous, cylinder, passes)),
        cylinder_contacts(body, previous, cylinder, passes).kind == body.kind,
    decreases passes,
{
    if passes > 0 {
        let next = cylinder_contact(body, previous, cylinder).0;
        if next != body {
            let radial = reject_from_x_axis(
                point_of(body, hub_center()).minus(cylinder.origin),
            );
            let distance = radial.squared().root();
            let contact_distance = cylinder.radius.plus(hub_radius());
            let normal = if contact_epsilon::<S>().below(radial.squared()) {
                radial.over(distance)
            } else {
                safe_normal(
                    radial,
                    reject_from_x_axis(
                        weighted_point(previous, hub_center()).minus(cylinder.origin),
                    ),
                    Vec3::y_unit(),
                )
            };
            let multiplier = contact_distance.minus(distance).over(
                inverse_weight(body, hub_center()),
            );
            assert(next == pushed(body, hub_center(), normal, multiplier));
            lemma_push_keeps(body, normal, multiplier);
        }
        lemma_cylinder_keeps(next, previous, cylinder, (passes - 1) as nat);
    }
}

/// One round of projections leaves no hub and no ball turned, but for fixed hubs that were
/// so before.
proof fn lemma_round_keeps<S: Scalar>(setup: Setup<S>, motion: Motion<S>, variant: Variant)
    requires
        exact::<S>(),
        setup.well_formed(),
        motion.well_formed(setup),
        motion.bodies.len() <= usize::MAX,
        forall|i: int|
            0 <= i < motion.bodies.len() && (#[trigger] motion.bodies[i]).fixed ==> unturned(
                motion.bodies[i],
            ),
    ensures
        none_turned(contacted(setup, jointed(setup, shaped(setup, motion, variant))).bodies),
{
    let n = setup.grid_size as int;
    let shapes = shaped(setup, motion, variant);
    let joints = jointed(setup, shapes);
    let contacts = contacted(setup, joints);
    lemma_counts(n);
    lemma_shaped(setup, motion, variant);
    lemma_jointed(setup, shapes);
    assert forall|i: int| 0 <= i < shapes.bodies.len() && !((#[trigger] shapes.bodies[i]).kind is Rod)
        implies unturned(shapes.bodies[i]) by {
        let before = motion.bodies[i];
        let after = shapes.bodies[i];
        assert((before.kind, before.fixed) == layout(setup.scene, n, i));
        assert(body_only_moved(before, after));
        if !before.fixed {
            let rest = body_rest_points::<S>(before.kind);
            let center = centroid(before.predicted_positions).scaled(
                before.prediction_weight(),
            ).plus(centroid(before.positions).scaled(before.shape_weight()));
            assert(after.positions == about(center, rest));
        }
    }
    assert forall|i: int| 0 <= i < joints.bodies.len() && !((#[trigger] joints.bodies[i]).kind is Rod)
        implies unturned(joints.bodies[i]) by {
        let before = shapes.bodies[i];
        let after = joints.bodies[i];
        assert((before.kind, before.fixed) == layout(setup.scene, n, i));
        assert(body_only_moved(before, after));
        assert(unturned(before));
        if i < hub_total(n) && !before.fixed {
            lemma_shift_keeps(before, after, joints.hubs[i]);
        }
    }
    match setup.scene {
        DemoScene::JointGrid => {},
        DemoScene::CylinderDrape => {
            assert forall|i: int|
                0 <= i < contacts.bodies.len() && !((#[trigger] contacts.bodies[i]).kind is Rod)
                implies unturned(contacts.bodies[i]) by {
                let before = joints.bodies[i];
                lemma_contacted(setup, joints);
                assert(body_only_moved(before, contacts.bodies[i]));
                lemma_cylinder_keeps(
                    before,
                    joints.previous[i],
                    setup.cylinder->0,
                    CONTACT_PASSES as nat,
                );
            }
        },
        DemoScene::FallingBalls => {
            lemma_balls_in_place(setup, joints);
            assert forall|i: int| 0 <= i < setup.balls.len() implies (#[trigger] setup.balls[i])
                < joints.bodies.len() && !(joints.bodies[setup.balls[i] as int].kind is Rod) by {
                let ball = joints.bodies[net_total(n) + i];
                assert((ball.kind, ball.fixed) == layout(setup.scene, n, net_total(n) + i));
            }
            lemma_ball_passes_keep(
                joints.bodies,
                joints.chunk_min,
                joints.chunk_max,
                joints.previous,
                setup.balls,
                0,
            );
        },
    }
}

proof fn lemma_rounds_keep<S: Scalar>(
    setup: Setup<S>,
    motion: Motion<S>,
    variant: Variant,
    rounds: nat,
)
    requires
        exact::<S>(),
        setup.well_formed(),
        motion.well_formed(setup),
        motion.bodies.len() <= usize::MAX,
        forall|i: int|
            0 <= i < motion.bodies.len() && (#[trigger] motion.bodies[i]).fixed ==> unturned(
                motion.bodies[i],
            ),
        rounds > 0,
    ensures
        none_turned(projected(setup, motion, variant, rounds).bodies),
    decreases rounds,
{
    reveal_with_fuel(projected, 2);
    let shapes = shaped(setup, motion, variant);
    let joints = jointed(setup, shapes);
    let contacts = contacted(setup, joints);
    lemma_shaped(setup, motion, variant);
    lemma_jointed(setup, shapes);
    lemma_contacted(setup, joints);
    lemma_round_keeps(setup, motion, variant);
    if rounds > 1 {
        let n = setup.grid_size as int;
        assert forall|i: int|
            0 <= i < contacts.bodies.len() && (#[trigger] contacts.bodies[i]).fixed implies
            unturned(contacts.bodies[i]) by {
            assert((contacts.bodies[i].kind, contacts.bodies[i].fixed) == layout(
                setup.scene,
                n,
                i,
            ));
        }
        lemma_rounds_keep(setup, contacts, variant, (rounds - 1) as nat);
    }
}

/// In exact arithmetic no step turns a hub or a ball: where the pinned hubs of a demo have not
/// turned, all its hubs and balls are unturned after the step.
pub proof fn lemma_step_turns_none<S: Scalar>(
    setup: Setup<S>,
    motion: Motion<S>,
    dt: S,
    variant: Variant,
)
    requires
        exact::<S>(),
        setup.well_formed(),
        motion.well_formed(setup),
        forall|i: int|
            0 <= i < motion.bodies.len() && (#[trigger] motion.bodies[i]).fixed ==> unturned(
                motion.bodies[i],
            ),
    ensures
        none_turned(stepped(setup, motion, dt, variant).bodies),
{
    let n = setup.grid_size as int;
    let start = begun(setup, motion, dt);
    lemma_counts(n);
    lemma_begun(setup, motion, dt);
    assert forall|i: int| 0 <= i < start.bodies.len() && (#[trigger] start.bodies[i]).fixed implies
        unturned(start.bodies[i]) by {
        assert((start.bodies[i].kind, start.bodies[i].fixed) == layout(setup.scene, n, i));
        assert((motion.bodies[i].kind, motion.bodies[i].fixed) == layout(setup.scene, n, i));
        assert(start.bodies[i].positions == motion.bodies[i].positions);
    }
    lemma_rounds_keep(setup, start, variant, COROTATED_ITERATIONS as nat);
}

/// No hub and no ball of a demo is turned at its start.
pub proof fn lemma_start_unturned<S: Scalar>(scene: DemoScene, grid_size: usize)
    requires
        grid_size >= 2,
        fits(grid_size),
    ensures
        none_turned(initial_motion::<S>(scene, grid_size).bodies),
{
    let n = grid_size as int;
    let bodies = initial_motion::<S>(scene, grid_size).bodies;
    lemma_counts(n);
    assert forall|i: int| 0 <= i < bodies.len() && !((#[trigger] bodies[i]).kind is Rod) implies
        unturned(bodies[i]) by {
        assert(bodies[i] == initial_body::<S>(scene, grid_size, i));
        if i < hub_total(n) {
            assert(bodies[i].positions == about(
                hub_position::<S>(scene, grid_size, i),
                body_rest_points(bodies[i].kind),
            ));
        } else if i >= net_total(n) {
            assert(bodies[i].positions == about(
                ball_position::<S>(i - net_total(n)),
                body_rest_points(bodies[i].kind),
            ));
        }
    }
}

} // verus!
