//! What carries a free point on: the way that its last step made, and gravity.

use crate::balls::net_body_total;
use crate::body::{body_only_moved, AffineBody, ControlPoints};
use crate::constants::{gravity, COROTATED_ITERATIONS};
use crate::cylinder::{cylinder_contact, cylinder_contacts};
use crate::field::{
    exact, lemma_difference, lemma_difference_of_sums, lemma_negated_product, lemma_one,
    lemma_product_associate, lemma_quotient, lemma_reciprocal, lemma_take_nothing, lemma_undo,
    lemma_zero,
};
use crate::grid::{lemma_counts, net_total};
use crate::laws::lemma_start;
use crate::net::{fits, initial_bodies};
use crate::order::ordered;
use crate::pruning_laws::{lemma_boxes_serve_all_passes, uncached_pass, uncached_passes};
use crate::run_laws::{demo_setup, lemma_run_keeps_demo, lemma_run_step, run, told_apart};
use crate::scalar::{one, zero, Scalar};
use crate::scene::DemoScene;
use crate::simulation::{
    begun, contacted, initial_motion, jointed, lemma_balls_in_place, lemma_begun, lemma_projected,
    projected, shaped, stepped, Motion, Setup, Variant,
};
use crate::vector::Vec3;
use vstd::prelude::*;

verus! {

/// Whether a point goes on with a velocity for a time and falls: by 9.81 times the square of
/// the time, and straight down.
pub open spec fn falls<S: Scalar>(from: Vec3<S>, velocity: Vec3<S>, dt: S, to: Vec3<S>) -> bool {
    &&& to.x == from.x.plus(velocity.x.times(dt))
    &&& to.y == from.y.plus(velocity.y.times(dt)).minus(S::fraction(981, 100).times(dt.times(dt)))
    &&& to.z == from.z.plus(velocity.z.times(dt))
}

/// Whether every point of a body falls, each with a velocity along the way that it made itself.
pub open spec fn points_fall<S: Scalar>(
    before: ControlPoints<S>,
    from: ControlPoints<S>,
    rate: S,
    dt: S,
    to: ControlPoints<S>,
) -> bool {
    &&& falls(from.p0, from.p0.minus(before.p0).scaled(rate), dt, to.p0)
    &&& falls(from.p1, from.p1.minus(before.p1).scaled(rate), dt, to.p1)
    &&& falls(from.p2, from.p2.minus(before.p2).scaled(rate), dt, to.p2)
    &&& falls(from.p3, from.p3.minus(before.p3).scaled(rate), dt, to.p3)
}

/// In exact arithmetic every point of a free body, whatever its kind, goes on with its own
/// velocity and falls; a fixed body stays. Nothing else of the body changes.
pub proof fn lemma_prediction<S: Scalar>(
    body: AffineBody<S>,
    previous: ControlPoints<S>,
    dt: S,
    rate: S,
)
    requires
        exact::<S>(),
    ensures
        ({
            let after = body.predicted(previous, dt, rate);
            &&& !body.fixed ==> points_fall(previous, body.positions, rate, dt, after.positions)
            &&& body.fixed ==> after.positions == body.positions
            &&& after.predicted_positions == after.positions
            &&& after.kind == body.kind
            &&& after.fixed == body.fixed
            &&& after.inertia == body.inertia
            &&& after.inverse_diagonal == body.inverse_diagonal
        }),
{
    let points = body.positions;
    lemma_fall(points.p0, points.p0.minus(previous.p0).scaled(rate), dt);
    lemma_fall(points.p1, points.p1.minus(previous.p1).scaled(rate), dt);
    lemma_fall(points.p2, points.p2.minus(previous.p2).scaled(rate), dt);
    lemma_fall(points.p3, points.p3.minus(previous.p3).scaled(rate), dt);
}

proof fn lemma_fall<S: Scalar>(from: Vec3<S>, velocity: Vec3<S>, dt: S)
    requires
        exact::<S>(),
    ensures
        falls(
            from,
            velocity,
            dt,
            from.plus(velocity.scaled(dt)).plus(
                gravity::<S>().scaled(dt.times(dt)),
            ),
        ),
{
    let square = dt.times(dt);
    lemma_zero(square);
    lemma_take_nothing(from.x.plus(velocity.x.times(dt)));
    lemma_take_nothing(from.z.plus(velocity.z.times(dt)));
    lemma_negated_product(S::fraction(981, 100), square);
    lemma_difference(
        from.y.plus(velocity.y.times(dt)),
        S::fraction(981, 100).times(square),
    );
}

/// What a second of velocity is made of by a step: the part of its way that damping leaves at
/// 30 steps a second, to the power of the step's share of a second, by its length.
pub open spec fn rate_after<S: Scalar>(dt: S) -> S {
    S::fraction(997, 1000).power(dt.times(S::fraction(30, 1))).over(dt)
}

/// In a run the velocity with which a free point goes on is the way that it made in the last
/// step, damped and divided by the length of that step, however long the next step is.
pub proof fn lemma_run_prediction<S: Scalar>(
    scene: DemoScene,
    grid_size: usize,
    steps: Seq<S>,
    variant: Variant,
    dt: S,
    body: int,
)
    requires
        exact::<S>(),
        grid_size >= 2,
        fits(grid_size),
        steps.len() > 0,
        told_apart(steps),
        0 <= body < initial_bodies::<S>(scene, grid_size).len(),
        !initial_bodies::<S>(scene, grid_size)[body].fixed,
    ensures
        ({
            let earlier = run(scene, grid_size, steps.drop_last(), variant).bodies[body];
            let before = run(scene, grid_size, steps, variant);
            let after = begun(demo_setup(scene, grid_size), before, dt).bodies[body];
            &&& points_fall(
                earlier.positions,
                before.bodies[body].positions,
                rate_after(steps.last()),
                dt,
                after.positions,
            )
            &&& after.predicted_positions == after.positions
        }),
{
    let setup = demo_setup::<S>(scene, grid_size);
    let before = run(scene, grid_size, steps, variant);
    lemma_start::<S>(scene, grid_size);
    lemma_run_keeps_demo(scene, grid_size, steps, variant);
    lemma_run_step(scene, grid_size, steps, variant);
    let start = initial_bodies::<S>(scene, grid_size);
    let here = before.bodies[body];
    assert((start[body].kind, start[body].fixed) == (here.kind, here.fixed));
    lemma_prediction(here, before.previous[body], dt, before.velocity_scale);
    lemma_prediction(
        here.with_coefficients(dt),
        before.previous[body],
        dt,
        before.velocity_scale,
    );
}

/// A demo starts from rest: in its first step every free point only falls.
pub proof fn lemma_first_prediction<S: Scalar>(
    scene: DemoScene,
    grid_size: usize,
    dt: S,
    body: int,
)
    requires
        exact::<S>(),
        grid_size >= 2,
        fits(grid_size),
        0 <= body < initial_bodies::<S>(scene, grid_size).len(),
        !initial_bodies::<S>(scene, grid_size)[body].fixed,
    ensures
        ({
            let before = initial_motion::<S>(scene, grid_size);
            let after = begun(demo_setup(scene, grid_size), before, dt).bodies[body].positions;
            let from = initial_bodies::<S>(scene, grid_size)[body].positions;
            &&& falls(from.p0, Vec3::origin(), dt, after.p0)
            &&& falls(from.p1, Vec3::origin(), dt, after.p1)
            &&& falls(from.p2, Vec3::origin(), dt, after.p2)
            &&& falls(from.p3, Vec3::origin(), dt, after.p3)
        }),
{
    lemma_start::<S>(scene, grid_size);
    let here = initial_bodies::<S>(scene, grid_size)[body];
    lemma_prediction(here, here.positions, dt, zero());
    lemma_prediction(here.with_coefficients(dt), here.positions, dt, zero());
    lemma_at_rest(here.positions.p0);
    lemma_at_rest(here.positions.p1);
    lemma_at_rest(here.positions.p2);
    lemma_at_rest(here.positions.p3);
}

proof fn lemma_at_rest<S: Scalar>(point: Vec3<S>)
    requires
        exact::<S>(),
    ensures
        point.minus(point).scaled(zero()) == Vec3::<S>::origin(),
{
    lemma_zero(point.x.minus(point.x));
    lemma_zero(point.y.minus(point.y));
    lemma_zero(point.z.minus(point.z));
}

/// The velocity that takes a falling point from one place to another in a time.
pub open spec fn velocity_between<S: Scalar>(from: Vec3<S>, to: Vec3<S>, dt: S) -> Vec3<S> {
    Vec3 {
        x: to.x.minus(from.x).over(dt),
        y: to.y.plus(S::fraction(981, 100).times(dt.times(dt))).minus(from.y).over(dt),
        z: to.z.minus(from.z).over(dt),
    }
}

proof fn lemma_divided<S: Scalar>(velocity: S, from: S, dt: S)
    requires
        exact::<S>(),
        dt != zero::<S>(),
    ensures
        from.plus(velocity.times(dt)).minus(from).over(dt) == velocity,
{
    lemma_undo(velocity.times(dt), from);
    lemma_quotient(velocity.times(dt), dt);
    let quotient = velocity.times(dt).over(dt);
    let inverse = one::<S>().over(dt);
    lemma_reciprocal(velocity.times(dt), dt);
    lemma_product_associate(velocity, dt, inverse);
    lemma_quotient(one::<S>(), dt);
    lemma_one(velocity);
    assert(quotient == velocity);
}

proof fn lemma_velocity_found<S: Scalar>(from: Vec3<S>, velocity: Vec3<S>, dt: S, to: Vec3<S>)
    requires
        exact::<S>(),
        dt != zero::<S>(),
        falls(from, velocity, dt, to),
    ensures
        velocity_between(from, to, dt) == velocity,
{
    lemma_undo(
        from.y.plus(velocity.y.times(dt)),
        S::fraction(981, 100).times(dt.times(dt)),
    );
    lemma_divided(velocity.x, from.x, dt);
    lemma_divided(velocity.y, from.y, dt);
    lemma_divided(velocity.z, from.z, dt);
}

/// A change of the rate changes no velocity: a free point goes on as fast into a step of one
/// length as into a step of any other.
pub proof fn lemma_rate_change<S: Scalar>(
    scene: DemoScene,
    grid_size: usize,
    steps: Seq<S>,
    variant: Variant,
    first: S,
    second: S,
    body: int,
)
    requires
        exact::<S>(),
        grid_size >= 2,
        fits(grid_size),
        steps.len() > 0,
        told_apart(steps),
        first != zero::<S>(),
        second != zero::<S>(),
        0 <= body < initial_bodies::<S>(scene, grid_size).len(),
        !initial_bodies::<S>(scene, grid_size)[body].fixed,
    ensures
        ({
            let setup = demo_setup(scene, grid_size);
            let before = run(scene, grid_size, steps, variant);
            let from = before.bodies[body].positions;
            let one_way = begun(setup, before, first).bodies[body].positions;
            let other_way = begun(setup, before, second).bodies[body].positions;
            &&& velocity_between(from.p0, one_way.p0, first) == velocity_between(
                from.p0,
                other_way.p0,
                second,
            )
            &&& velocity_between(from.p1, one_way.p1, first) == velocity_between(
                from.p1,
                other_way.p1,
                second,
            )
            &&& velocity_between(from.p2, one_way.p2, first) == velocity_between(
                from.p2,
                other_way.p2,
                second,
            )
            &&& velocity_between(from.p3, one_way.p3, first) == velocity_between(
                from.p3,
                other_way.p3,
                second,
            )
        }),
{
    let setup = demo_setup(scene, grid_size);
    let before = run(scene, grid_size, steps, variant);
    let from = before.bodies[body].positions;
    let earlier = run(scene, grid_size, steps.drop_last(), variant).bodies[body].positions;
    let rate = rate_after(steps.last());
    let one_way = begun(setup, before, first).bodies[body].positions;
    let other_way = begun(setup, before, second).bodies[body].positions;
    lemma_run_prediction(scene, grid_size, steps, variant, first, body);
    lemma_run_prediction(scene, grid_size, steps, variant, second, body);
    lemma_velocity_found(from.p0, from.p0.minus(earlier.p0).scaled(rate), first, one_way.p0);
    lemma_velocity_found(from.p1, from.p1.minus(earlier.p1).scaled(rate), first, one_way.p1);
    lemma_velocity_found(from.p2, from.p2.minus(earlier.p2).scaled(rate), first, one_way.p2);
    lemma_velocity_found(from.p3, from.p3.minus(earlier.p3).scaled(rate), first, one_way.p3);
    lemma_velocity_found(from.p0, from.p0.minus(earlier.p0).scaled(rate), second, other_way.p0);
    lemma_velocity_found(from.p1, from.p1.minus(earlier.p1).scaled(rate), second, other_way.p1);
    lemma_velocity_found(from.p2, from.p2.minus(earlier.p2).scaled(rate), second, other_way.p2);
    lemma_velocity_found(from.p3, from.p3.minus(earlier.p3).scaled(rate), second, other_way.p3);
}

/// One coordinate of the way of a falling point at a constant rate.
proof fn lemma_way_damped<S: Scalar>(way: S, kept: S, dt: S)
    requires
        exact::<S>(),
        dt != zero::<S>(),
    ensures
        way.times(kept.over(dt)).times(dt) == way.times(kept),
{
    lemma_product_associate(way, kept.over(dt), dt);
    lemma_quotient(kept, dt);
}

/// How far a falling point gets in a step that is as long as the one before: as far as in that
/// one, damped, and further down by 9.81 times the square of the length.
pub open spec fn falls_on<S: Scalar>(
    before: Vec3<S>,
    from: Vec3<S>,
    kept: S,
    dt: S,
    to: Vec3<S>,
) -> bool {
    &&& to.x.minus(from.x) == from.x.minus(before.x).times(kept)
    &&& to.y.minus(from.y) == from.y.minus(before.y).times(kept).minus(
        S::fraction(981, 100).times(dt.times(dt)),
    )
    &&& to.z.minus(from.z) == from.z.minus(before.z).times(kept)
}

proof fn lemma_falls_on<S: Scalar>(before: Vec3<S>, from: Vec3<S>, dt: S, to: Vec3<S>)
    requires
        exact::<S>(),
        dt != zero::<S>(),
        falls(from, from.minus(before).scaled(rate_after(dt)), dt, to),
    ensures
        falls_on(
            before,
            from,
            S::fraction(997, 1000).power(dt.times(S::fraction(30, 1))),
            dt,
            to,
        ),
{
    let kept = S::fraction(997, 1000).power(dt.times(S::fraction(30, 1)));
    let way = from.minus(before);
    let drop = S::fraction(981, 100).times(dt.times(dt));
    lemma_way_damped(way.x, kept, dt);
    lemma_way_damped(way.y, kept, dt);
    lemma_way_damped(way.z, kept, dt);
    lemma_undo(way.x.times(kept), from.x);
    lemma_undo(way.z.times(kept), from.z);
    lemma_difference_of_sums(from.y, way.y.times(kept), zero(), drop);
    lemma_take_nothing(from.y);
    lemma_take_nothing(drop);
    lemma_undo(way.y.times(kept).minus(drop), from.y);
}

/// In a run at a constant rate every free point is predicted to go as far as in the step
/// before, damped, and to fall further by 9.81 times the square of the length of a step: left
/// alone, it accelerates.
pub proof fn lemma_free_fall<S: Scalar>(
    scene: DemoScene,
    grid_size: usize,
    steps: Seq<S>,
    variant: Variant,
    body: int,
)
    requires
        exact::<S>(),
        grid_size >= 2,
        fits(grid_size),
        steps.len() > 0,
        told_apart(steps),
        steps.last() != zero::<S>(),
        0 <= body < initial_bodies::<S>(scene, grid_size).len(),
        !initial_bodies::<S>(scene, grid_size)[body].fixed,
    ensures
        ({
            let dt = steps.last();
            let kept = S::fraction(997, 1000).power(dt.times(S::fraction(30, 1)));
            let earlier = run(scene, grid_size, steps.drop_last(), variant).bodies[body].positions;
            let before = run(scene, grid_size, steps, variant);
            let from = before.bodies[body].positions;
            let to = begun(demo_setup(scene, grid_size), before, dt).bodies[body].positions;
            &&& falls_on(earlier.p0, from.p0, kept, dt, to.p0)
            &&& falls_on(earlier.p1, from.p1, kept, dt, to.p1)
            &&& falls_on(earlier.p2, from.p2, kept, dt, to.p2)
            &&& falls_on(earlier.p3, from.p3, kept, dt, to.p3)
        }),
{
    let dt = steps.last();
    let earlier = run(scene, grid_size, steps.drop_last(), variant).bodies[body].positions;
    let before = run(scene, grid_size, steps, variant);
    let from = before.bodies[body].positions;
    let to = begun(demo_setup(scene, grid_size), before, dt).bodies[body].positions;
    lemma_run_prediction(scene, grid_size, steps, variant, dt, body);
    lemma_falls_on(earlier.p0, from.p0, dt, to.p0);
    lemma_falls_on(earlier.p1, from.p1, dt, to.p1);
    lemma_falls_on(earlier.p2, from.p2, dt, to.p2);
    lemma_falls_on(earlier.p3, from.p3, dt, to.p3);
}

/// Two rows of rounds are one: the rounds of a step can be cut anywhere, and each goes through
/// the shapes, the joints and the contacts, in this order.
pub proof fn lemma_rounds_compose<S: Scalar>(
    setup: Setup<S>,
    motion: Motion<S>,
    variant: Variant,
    first: nat,
    second: nat,
)
    ensures
        projected(setup, motion, variant, first + second) == projected(
            setup,
            projected(setup, motion, variant, first),
            variant,
            second,
        ),
        projected(setup, motion, variant, first + 1) == contacted(
            setup,
            jointed(setup, shaped(setup, projected(setup, motion, variant, first), variant)),
        ),
        projected(setup, motion, variant, 0) == motion,
    decreases first,
{
    reveal_with_fuel(projected, 2);
    if first > 0 {
        let next = contacted(setup, jointed(setup, shaped(setup, motion, variant)));
        lemma_rounds_compose(setup, next, variant, (first - 1) as nat, second);
    }
}

/// A step remembers where every body was at its start, takes the coefficients of its length,
/// predicts, and goes through 24 rounds.
pub proof fn lemma_step_phases<S: Scalar>(
    setup: Setup<S>,
    motion: Motion<S>,
    dt: S,
    variant: Variant,
    body: int,
)
    requires
        setup.well_formed(),
        motion.well_formed(setup),
        0 <= body < motion.bodies.len(),
    ensures
        ({
            let start = begun(setup, motion, dt);
            let after = stepped(setup, motion, dt, variant);
            &&& after == projected(setup, start, variant, 24)
            &&& start.previous[body] == motion.bodies[body].positions
            &&& after.previous[body] == motion.bodies[body].positions
            &&& after.bodies.len() == motion.bodies.len()
            &&& after.bodies[body].predicted_positions == start.bodies[body].predicted_positions
            &&& motion.dt_bits != dt.bits() ==> start.bodies[body].inertia
                == motion.bodies[body].with_coefficients(dt).inertia
            &&& motion.dt_bits != dt.bits() ==> start.bodies[body].inverse_diagonal
                == motion.bodies[body].with_coefficients(dt).inverse_diagonal
        }),
{
    let start = begun(setup, motion, dt);
    lemma_begun(setup, motion, dt);
    lemma_projected(setup, start, variant, COROTATED_ITERATIONS as nat);
    let after = projected(setup, start, variant, COROTATED_ITERATIONS as nat);
    assert(body_only_moved(start.bodies[body], after.bodies[body]));
}

/// What the contacts of a round are: none for a net that only hangs, two of every body with
/// the cylinder for a draped net, and, in exact arithmetic, two passes over all balls and all
/// bodies of the net for one that catches balls.
pub proof fn lemma_contact_phase<S: Scalar>(setup: Setup<S>, motion: Motion<S>, body: int)
    requires
        setup.well_formed(),
        motion.well_formed(setup),
        0 <= body < motion.bodies.len(),
    ensures
        setup.scene == DemoScene::JointGrid ==> contacted(setup, motion) == motion,
        setup.scene == DemoScene::CylinderDrape ==> ({
            let cylinder = setup.cylinder->0;
            let previous = motion.previous[body];
            let once = cylinder_contact(motion.bodies[body], previous, cylinder).0;
            contacted(setup, motion).bodies[body] == cylinder_contact(once, previous, cylinder).0
        }),
        setup.scene == DemoScene::FallingBalls && ordered::<S>() ==> ({
            let once = uncached_pass(motion.bodies, motion.previous, setup.balls);
            contacted(setup, motion).bodies == uncached_pass(once, motion.previous, setup.balls)
        }),
        setup.scene == DemoScene::FallingBalls ==> net_body_total(
            setup.balls,
            motion.bodies.len(),
        ) == net_total(setup.grid_size as int),
        forall|i: int|
            0 <= i < setup.balls.len() ==> (#[trigger] setup.balls[i]) == net_total(
                setup.grid_size as int,
            ) + i,
        setup.balls.len() == (if setup.scene == DemoScene::FallingBalls {
            3nat
        } else {
            0nat
        }),
{
    lemma_counts(setup.grid_size as int);
    reveal_with_fuel(cylinder_contacts, 3);
    reveal_with_fuel(uncached_passes, 3);
    if setup.scene == DemoScene::FallingBalls && ordered::<S>() {
        lemma_balls_in_place(setup, motion);
        lemma_boxes_serve_all_passes(
            motion.bodies,
            motion.chunk_min,
            motion.chunk_max,
            motion.previous,
            setup.balls,
            0,
        );
    }
}

} // verus!
