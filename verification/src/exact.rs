//! What holds in an arithmetic that does not round.
//!
//! The solver runs in any arithmetic. Where sums and products are exact, the joint solve
//! closes every joint; rounding is all that keeps it from doing so elsewhere.

use crate::body::{hub_attachment_center, rod_joint_endpoints, AffineBody, ControlPoints};
use crate::constants::COROTATED_ITERATIONS;
use crate::field::{
    exact, lemma_associate, lemma_commute, lemma_difference, lemma_distribute, lemma_exchange,
    lemma_negation, lemma_parts, lemma_take_nothing, lemma_zero,
};
use crate::gather::{hub_delta, hub_deltas, joint_residual, joint_residuals, neighbor_sum};
use crate::grid::{
    end_hub, hub_total, joint_hub, joint_total, lemma_counts, lemma_joint_is_neighbor, start_hub,
};
use crate::joints::{
    common_rod_weight, ends_corrected, hub_corrected, hub_delta_scales, incidences, moved,
    repeated_sum, rod_corrected, schur_factor,
};
use crate::laws::{coefficients_of, lemma_begun_coefficients, lemma_coefficients_kept};
use crate::scalar::{half, one, quarter, zero, Scalar};
use crate::scene::DemoScene;
use crate::shapes::{hub_centers, rod_endpoints};
use crate::simulation::{
    begun, jointed, lemma_begun, lemma_jointed, lemma_shaped, projected, shaped, stepped, Motion,
    Setup, Variant,
};
use crate::vector::Vec3;
use vstd::prelude::*;

verus! {

/// Moving two points by the same amount moves their midpoint by it.
proof fn lemma_midpoint<S: Scalar>(p: S, q: S, step: S)
    requires
        exact::<S>(),
    ensures
        p.minus(step).times(half()).plus(q.minus(step).times(half())) == p.times(half()).plus(
            q.times(half()),
        ).minus(step),
{
    let back = step.negated();
    lemma_difference(p, step);
    lemma_difference(q, step);
    lemma_distribute(p, back, half());
    lemma_distribute(q, back, half());
    lemma_exchange(p.times(half()), back.times(half()), q.times(half()), back.times(half()));
    lemma_parts(back);
    lemma_difference(p.times(half()).plus(q.times(half())), step);
}

/// Moving four points by the same amount moves their centre by it.
proof fn lemma_center<S: Scalar>(p: S, q: S, r: S, s: S, step: S)
    requires
        exact::<S>(),
    ensures
        ({
            let part = quarter::<S>();
            p.plus(step).times(part).plus(q.plus(step).times(part)).plus(
                r.plus(step).times(part),
            ).plus(s.plus(step).times(part)) == p.times(part).plus(q.times(part)).plus(
                r.times(part),
            ).plus(s.times(part)).plus(step)
        }),
{
    let part = quarter::<S>();
    let (a, b, c, d) = (p.times(part), q.times(part), r.times(part), s.times(part));
    let e = step.times(part);
    lemma_distribute(p, step, part);
    lemma_distribute(q, step, part);
    lemma_distribute(r, step, part);
    lemma_distribute(s, step, part);
    lemma_exchange(a, e, b, e);
    lemma_exchange(a.plus(b), e.plus(e), c, e);
    lemma_exchange(a.plus(b).plus(c), e.plus(e).plus(e), d, e);
    lemma_parts(step);
}

/// An end that goes back by its residual less a movement meets a centre that makes the
/// movement.
proof fn lemma_meet<S: Scalar>(end: S, center: S, delta: S)
    requires
        exact::<S>(),
    ensures
        end.minus(end.minus(center).minus(delta)).minus(center.plus(delta)) == zero::<S>(),
        end.minus(end.minus(center).minus(delta)) == center.plus(delta),
{
    let residual = end.minus(center);
    let (away, back) = (end.negated(), delta.negated());
    lemma_difference(end, center);
    lemma_difference(residual, delta);
    lemma_difference(end, residual.minus(delta));
    lemma_negation(residual, back);
    lemma_negation(end, center.negated());
    lemma_negation(center, center);
    lemma_negation(delta, delta);
    assert(residual.minus(delta).negated() == away.plus(center).plus(delta));
    lemma_associate(away, center, delta);
    lemma_associate(end, away, center.plus(delta));
    lemma_zero(end);
    lemma_commute(zero(), center.plus(delta));
    lemma_zero(center.plus(delta));
    lemma_difference(center.plus(delta), center.plus(delta));
}

/// The ends of a corrected rod.
proof fn lemma_corrected_ends<S: Scalar>(
    points: ControlPoints<S>,
    start: Vec3<S>,
    end: Vec3<S>,
)
    requires
        exact::<S>(),
    ensures
        ({
            let before = rod_joint_endpoints(points);
            let after = rod_joint_endpoints(ends_corrected(points, start, end));
            after == (before.0.minus(start), before.1.minus(end))
        }),
{
    lemma_midpoint(points.p0.x, points.p1.x, start.x);
    lemma_midpoint(points.p0.y, points.p1.y, start.y);
    lemma_midpoint(points.p0.z, points.p1.z, start.z);
    lemma_midpoint(points.p2.x, points.p3.x, end.x);
    lemma_midpoint(points.p2.y, points.p3.y, end.y);
    lemma_midpoint(points.p2.z, points.p3.z, end.z);
}

/// The centre of a moved hub.
proof fn lemma_moved_center<S: Scalar>(points: ControlPoints<S>, delta: Vec3<S>)
    requires
        exact::<S>(),
    ensures
        hub_attachment_center(moved(points, delta)) == hub_attachment_center(points).plus(delta),
{
    lemma_center(points.p0.x, points.p1.x, points.p2.x, points.p3.x, delta.x);
    lemma_center(points.p0.y, points.p1.y, points.p2.y, points.p3.y, delta.y);
    lemma_center(points.p0.z, points.p1.z, points.p2.z, points.p3.z, delta.z);
}

/// An end that goes back by its residual less the movement of its hub meets the hub.
proof fn lemma_meet_points<S: Scalar>(end: Vec3<S>, center: Vec3<S>, delta: Vec3<S>)
    requires
        exact::<S>(),
    ensures
        end.minus(end.minus(center).minus(delta)).minus(center.plus(delta)) == Vec3::<S>::origin(),
        delta == Vec3::<S>::origin() ==> center.plus(delta) == center,
{
    lemma_meet(end.x, center.x, delta.x);
    lemma_meet(end.y, center.y, delta.y);
    lemma_meet(end.z, center.z, delta.z);
    lemma_take_nothing(center.x);
    lemma_take_nothing(center.y);
    lemma_take_nothing(center.z);
}

/// Whether every joint of a net is closed: its rod end is where its hub centre is.
pub open spec fn joints_closed<S: Scalar>(bodies: Seq<AffineBody<S>>, n: int) -> bool {
    forall|joint: int|
        0 <= joint < joint_total(n) ==> #[trigger] joint_residual(
            rod_endpoints(bodies, n),
            hub_centers(bodies, n),
            n,
            joint,
        ) == Vec3::<S>::origin()
}

/// A fixed hub has no movement in exact arithmetic.
pub proof fn lemma_fixed_hub_still<S: Scalar>(
    setup: Setup<S>,
    motion: Motion<S>,
    dt: S,
    hub: int,
)
    requires
        exact::<S>(),
        setup.well_formed(),
        motion.well_formed(setup),
        coefficients_of(setup, motion, dt),
        0 <= hub < hub_total(setup.grid_size as int),
        motion.bodies[hub].fixed,
    ensures
        hub_delta(
            motion.residuals,
            motion.hubs,
            motion.scale,
            setup.grid_size as int,
            hub,
        ) == Vec3::<S>::origin(),
{
    let n = setup.grid_size as int;
    lemma_counts(n);
    assert(motion.bodies[hub] == motion.bodies[hub].with_coefficients(dt));
    assert(motion.bodies[hub].inverse_diagonal == zero::<S>());
    lemma_zero(quarter::<S>());
    let scale = motion.scale[hub];
    assert(scale == hub_delta_scales(motion.bodies, setup.joints, motion.scale.len())[hub]);
    let weight = common_rod_weight(motion.bodies, setup.joints);
    let paired = setup.joints.len() - setup.joints.len() % 2;
    let weight_sum = repeated_sum(
        weight,
        incidences(setup.joints, paired, hub),
    );
    let divisor = one::<S>().plus(zero::<S>().times(weight_sum));
    lemma_zero(divisor);
    assert(schur_factor(motion.bodies[hub], weight_sum) == zero::<S>());
    lemma_zero(weight);
    assert(scale == zero::<S>());
    let sum = neighbor_sum(
        n,
        hub,
        |joint: int| joint_residual(motion.residuals, motion.hubs, n, joint),
    );
    lemma_zero(sum.x);
    lemma_zero(sum.y);
    lemma_zero(sum.z);
}

/// In exact arithmetic the joint solve closes every joint, those of pinned hubs too.
pub proof fn lemma_joint_solve_closes<S: Scalar>(setup: Setup<S>, motion: Motion<S>, dt: S)
    requires
        exact::<S>(),
        setup.well_formed(),
        motion.well_formed(setup),
        coefficients_of(setup, motion, dt),
        motion.residuals == rod_endpoints(motion.bodies, setup.grid_size as int),
        motion.hubs == hub_centers(motion.bodies, setup.grid_size as int),
    ensures
        joints_closed(jointed(setup, motion).bodies, setup.grid_size as int),
{
    let n = setup.grid_size as int;
    let before = motion.bodies;
    let after = jointed(setup, motion).bodies;
    let residuals = joint_residuals(motion.residuals, motion.hubs, n);
    let deltas = hub_deltas(motion.residuals, motion.hubs, motion.scale, n);
    lemma_counts(n);
    assert forall|joint: int| 0 <= joint < joint_total(n) implies #[trigger] joint_residual(
        rod_endpoints(after, n),
        hub_centers(after, n),
        n,
        joint,
    ) == Vec3::<S>::origin() by {
        lemma_joint_is_neighbor(n, joint);
        let rod = joint / 2;
        let hub = joint_hub(n, joint);
        let number = hub_total(n) + rod;
        let start_delta = deltas[start_hub(n, rod)];
        let end_delta = deltas[end_hub(n, rod)];
        let start = residuals[2 * rod].minus(start_delta);
        let end = residuals[2 * rod + 1].minus(end_delta);
        assert(after[number] == rod_corrected(
            before[number],
            residuals[2 * rod],
            residuals[2 * rod + 1],
            start_delta,
            end_delta,
        ));
        lemma_corrected_ends(before[number].positions, start, end);
        let ends = rod_joint_endpoints(before[number].positions);
        let here = motion.residuals[joint];
        let center = motion.hubs[hub];
        let delta = deltas[hub];
        assert(here == (if joint % 2 == 0 {
            ends.0
        } else {
            ends.1
        }));
        assert(residuals[joint] == here.minus(center));
        assert(rod_endpoints(after, n)[joint] == here.minus(here.minus(center).minus(delta)));
        lemma_meet_points(here, center, delta);
        assert(after[hub] == hub_corrected(before[hub], delta));
        assert(center == hub_attachment_center(before[hub].positions));
        if before[hub].fixed {
            lemma_fixed_hub_still(setup, motion, dt, hub);
            assert(hub_centers(after, n)[hub] == center);
        } else {
            lemma_moved_center(before[hub].positions, delta);
            assert(hub_centers(after, n)[hub] == center.plus(delta));
        }
    }
}

proof fn lemma_rounds_close<S: Scalar>(
    setup: Setup<S>,
    motion: Motion<S>,
    dt: S,
    variant: Variant,
    rounds: nat,
)
    requires
        exact::<S>(),
        setup.well_formed(),
        setup.scene == DemoScene::JointGrid,
        motion.well_formed(setup),
        coefficients_of(setup, motion, dt),
        rounds > 0,
    ensures
        joints_closed(projected(setup, motion, variant, rounds).bodies, setup.grid_size as int),
    decreases rounds,
{
    reveal_with_fuel(projected, 2);
    let after_shapes = shaped(setup, motion, variant);
    let after_joints = jointed(setup, after_shapes);
    lemma_shaped(setup, motion, variant);
    lemma_jointed(setup, after_shapes);
    lemma_coefficients_kept(setup, motion, after_shapes, dt);
    lemma_coefficients_kept(setup, after_shapes, after_joints, dt);
    lemma_joint_solve_closes(setup, after_shapes, dt);
    if rounds > 1 {
        lemma_rounds_close(setup, after_joints, dt, variant, (rounds - 1) as nat);
    }
}

/// In exact arithmetic every joint of a hanging net is closed after every step.
pub proof fn lemma_step_closes_joints<S: Scalar>(
    setup: Setup<S>,
    motion: Motion<S>,
    dt: S,
    variant: Variant,
)
    requires
        exact::<S>(),
        setup.well_formed(),
        setup.scene == DemoScene::JointGrid,
        motion.well_formed(setup),
        motion.dt_bits == dt.bits() ==> coefficients_of(setup, motion, dt),
    ensures
        joints_closed(stepped(setup, motion, dt, variant).bodies, setup.grid_size as int),
{
    let start = begun(setup, motion, dt);
    lemma_begun(setup, motion, dt);
    lemma_begun_coefficients(setup, motion, dt);
    lemma_rounds_close(setup, start, dt, variant, COROTATED_ITERATIONS as nat);
}

} // verus!
