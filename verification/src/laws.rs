//! Laws of nets and of their steps.

use crate::body::{body_only_moved, AffineBody};
use crate::constants::COROTATED_ITERATIONS;
use crate::dual::rod_weight_sum;
use crate::gather::neighbor_sum;
use crate::grid::{
    down_joint, hub_total, joint_total, left_joint, lemma_counts, lemma_hub_joints, lemma_in_row,
    lemma_index_row, lemma_joint_is_neighbor, net_total, right_joint, up_joint,
};
use crate::joints::{
    common_rod_weight, hub_delta_scales, incidences, inverse_rod_weight, net_rod_corrected,
    repeated_sum, rod_corrected, schur_factor, BallJoint,
};
use crate::net::{ball_total, fits, initial_bodies, net_joint, net_joints, pinned};
use crate::scalar::Scalar;
use crate::scene::DemoScene;
use crate::simulation::{
    begun, damping, laid_out, layout, lemma_begun, lemma_projected, prepared, projected,
    projection_keeps, stepped, with_coefficients, Motion, Setup, Variant,
};
use crate::vector::Vec3;
use vstd::prelude::*;

verus! {

/// A net of `n` by `n` hubs has `3 n^2 - 2 n` bodies and `4 n (n - 1)` joints.
pub proof fn lemma_net_size(n: int)
    requires
        n >= 1,
    ensures
        net_total(n) == 3 * (n * n) - 2 * n,
        joint_total(n) == 4 * (n * (n - 1)),
{
    lemma_counts(n);
}

/// The pinned hubs of a hanging net are those of its first row.
pub proof fn lemma_pinned_edge(scene: DemoScene, n: int, hub: int)
    requires
        n >= 2,
        0 <= hub < hub_total(n),
        scene != DemoScene::FallingBalls,
    ensures
        pinned(scene, n, hub / n, hub % n) <==> hub < n,
{
    lemma_in_row(n, 0, hub);
}

/// The pinned hubs of the net that catches balls are its four corners.
pub proof fn lemma_pinned_corners(n: int, hub: int)
    requires
        n >= 2,
        0 <= hub < hub_total(n),
    ensures
        pinned(DemoScene::FallingBalls, n, hub / n, hub % n) <==> (hub == 0 || hub == n - 1 || hub
            == n * (n - 1) || hub == n * n - 1),
        0 < n - 1 < n * (n - 1) < n * n - 1,
{
    lemma_counts(n);
    lemma_in_row(n, 0, hub);
    lemma_in_row(n, n - 1, hub);
    lemma_index_row(n, n, hub);
}

/// How many neighbours a hub has in the net.
pub open spec fn degree(n: int, hub: int) -> nat {
    let row = hub / n;
    let column = hub % n;
    ((if column > 0 {
        1int
    } else {
        0
    }) + (if column + 1 < n {
        1int
    } else {
        0
    }) + (if row > 0 {
        1int
    } else {
        0
    }) + (if row + 1 < n {
        1int
    } else {
        0
    })) as nat
}

/// How many of the joints of a hub are among the first `count`.
spec fn joints_found(n: int, hub: int, count: int) -> nat {
    let row = hub / n;
    let column = hub % n;
    ((if column > 0 && left_joint(n, row, column) < count {
        1int
    } else {
        0
    }) + (if column + 1 < n && right_joint(n, row, column) < count {
        1int
    } else {
        0
    }) + (if row > 0 && up_joint(n, row, column) < count {
        1int
    } else {
        0
    }) + (if row + 1 < n && down_joint(n, row, column) < count {
        1int
    } else {
        0
    })) as nat
}

proof fn lemma_incidences<S: Scalar>(n: int, hub: int, count: int)
    requires
        n >= 2,
        hub_total(n) <= usize::MAX,
        0 <= hub < hub_total(n),
        0 <= count <= joint_total(n),
    ensures
        incidences(net_joints::<S>(n), count, hub) == joints_found(n, hub, count),
    decreases count,
{
    lemma_index_row(n, n, hub);
    lemma_hub_joints(n, hub / n, hub % n);
    lemma_counts(n);
    if count > 0 {
        lemma_incidences::<S>(n, hub, count - 1);
        let joint = count - 1;
        lemma_joint_is_neighbor(n, joint);
        assert(net_joints::<S>(n)[joint] == net_joint::<S>(n, joint));
    }
}

/// Every hub has as many joints as neighbours: two at a corner, three at an edge, four inside.
pub proof fn lemma_hub_degree<S: Scalar>(n: int, hub: int)
    requires
        n >= 2,
        hub_total(n) <= usize::MAX,
        0 <= hub < hub_total(n),
    ensures
        incidences(net_joints::<S>(n), joint_total(n), hub) == degree(n, hub),
        2 <= degree(n, hub) <= 4,
{
    lemma_index_row(n, n, hub);
    lemma_hub_joints(n, hub / n, hub % n);
    lemma_counts(n);
    lemma_incidences::<S>(n, hub, joint_total(n));
}

/// The terms of a hub's joints among the first `count`, added up joint by joint, starting from
/// zero.
pub open spec fn scattered_sum<S: Scalar>(
    joints: Seq<BallJoint<S>>,
    term: spec_fn(int) -> Vec3<S>,
    count: int,
    hub: int,
) -> Vec3<S>
    decreases count,
{
    if count <= 0 {
        Vec3::origin()
    } else {
        let sum = scattered_sum(joints, term, count - 1, hub);
        if joints[count - 1].b.body == hub {
            sum.plus(term(count - 1))
        } else {
            sum
        }
    }
}

/// The sum over the joints of a hub that are among the first `count`.
spec fn neighbor_sum_until<S: Scalar>(
    n: int,
    hub: int,
    term: spec_fn(int) -> Vec3<S>,
    count: int,
) -> Vec3<S> {
    let row = hub / n;
    let column = hub % n;
    let none = Vec3::<S>::origin();
    let left = if column > 0 && left_joint(n, row, column) < count {
        none.plus(term(left_joint(n, row, column)))
    } else {
        none
    };
    let right = if column + 1 < n && right_joint(n, row, column) < count {
        left.plus(term(right_joint(n, row, column)))
    } else {
        left
    };
    let up = if row > 0 && up_joint(n, row, column) < count {
        right.plus(term(up_joint(n, row, column)))
    } else {
        right
    };
    if row + 1 < n && down_joint(n, row, column) < count {
        up.plus(term(down_joint(n, row, column)))
    } else {
        up
    }
}

proof fn lemma_scattered_until<S: Scalar>(
    n: int,
    hub: int,
    term: spec_fn(int) -> Vec3<S>,
    count: int,
)
    requires
        n >= 2,
        hub_total(n) <= usize::MAX,
        0 <= hub < hub_total(n),
        0 <= count <= joint_total(n),
    ensures
        scattered_sum(net_joints::<S>(n), term, count, hub) == neighbor_sum_until(
            n,
            hub,
            term,
            count,
        ),
    decreases count,
{
    let row = hub / n;
    let column = hub % n;
    lemma_counts(n);
    lemma_index_row(n, n, hub);
    lemma_hub_joints(n, row, column);
    assert((row - 1) * n == row * n - n) by (nonlinear_arith);
    assert(left_joint(n, row, column) + 1 == right_joint(n, row, column));
    assert(up_joint(n, row, column) < down_joint(n, row, column));
    if count > 0 {
        lemma_scattered_until(n, hub, term, count - 1);
        let joint = count - 1;
        lemma_joint_is_neighbor(n, joint);
        assert(net_joints::<S>(n)[joint] == net_joint::<S>(n, joint));
    }
}

/// Going from hub to hub and adding up the terms of its neighbours gives, rounding and all,
/// what going from joint to joint and adding each term to its hub gives.
pub proof fn lemma_gather_is_scatter<S: Scalar>(
    n: int,
    hub: int,
    term: spec_fn(int) -> Vec3<S>,
)
    requires
        n >= 2,
        hub_total(n) <= usize::MAX,
        0 <= hub < hub_total(n),
    ensures
        neighbor_sum(n, hub, term) == scattered_sum(
            net_joints::<S>(n),
            term,
            joint_total(n),
            hub,
        ),
{
    lemma_counts(n);
    lemma_index_row(n, n, hub);
    lemma_hub_joints(n, hub / n, hub % n);
    lemma_scattered_until(n, hub, term, joint_total(n));
}

/// Finding the hubs of a rod by its place in the net gives the hubs of its joints.
pub proof fn lemma_structured_is_lookup<S: Scalar>(
    rod: AffineBody<S>,
    number: int,
    residuals: Seq<Vec3<S>>,
    deltas: Seq<Vec3<S>>,
    n: int,
)
    requires
        n >= 2,
        hub_total(n) <= usize::MAX,
        0 <= 2 * number < joint_total(n),
    ensures
        ({
            let joints = net_joints::<S>(n);
            net_rod_corrected(rod, number, residuals, deltas, n) == rod_corrected(
                rod,
                residuals[2 * number],
                residuals[2 * number + 1],
                deltas[joints[2 * number].b.body as int],
                deltas[joints[2 * number + 1].b.body as int],
            )
        }),
{
    lemma_joint_is_neighbor(n, 2 * number);
    lemma_joint_is_neighbor(n, 2 * number + 1);
    assert(net_joints::<S>(n)[2 * number] == net_joint::<S>(n, 2 * number));
    assert(net_joints::<S>(n)[2 * number + 1] == net_joint::<S>(n, 2 * number + 1));
}

/// A demo starts with its own bodies, each of them where it was before.
pub proof fn lemma_start<S: Scalar>(scene: DemoScene, grid_size: usize)
    requires
        grid_size >= 2,
        fits(grid_size),
    ensures
        laid_out(scene, grid_size as int, initial_bodies::<S>(scene, grid_size)),
        initial_bodies::<S>(scene, grid_size).len() == net_total(grid_size as int) + ball_total(
            scene,
        ),
{
    lemma_counts(grid_size as int);
}

/// Whether the coefficients of a motion are those of a step of length `dt`.
pub open spec fn coefficients_of<S: Scalar>(setup: Setup<S>, motion: Motion<S>, dt: S) -> bool {
    &&& motion.dt_bits == dt.bits()
    &&& motion.velocity_scale == damping(dt).over(dt)
    &&& motion.scale == hub_delta_scales(motion.bodies, setup.joints, motion.scale.len())
    &&& forall|i: int|
        0 <= i < motion.bodies.len() ==> (#[trigger] motion.bodies[i]) == motion.bodies[i]
            .with_coefficients(dt)
}

/// The scale of the hub movements depends on the inverse diagonals of the bodies alone.
pub proof fn lemma_scales_local<S: Scalar>(
    first: Seq<AffineBody<S>>,
    second: Seq<AffineBody<S>>,
    joints: Seq<BallJoint<S>>,
    hubs: nat,
)
    requires
        first.len() == second.len(),
        hubs <= first.len(),
        joints.len() > 0 ==> joints[0].a.body < first.len(),
        forall|i: int|
            0 <= i < first.len() ==> (#[trigger] first[i]).inverse_diagonal
                == second[i].inverse_diagonal,
    ensures
        hub_delta_scales(first, joints, hubs) == hub_delta_scales(second, joints, hubs),
{
    if joints.len() > 0 {
        let rod = joints[0].a.body as int;
        assert(first[rod].inverse_diagonal == second[rod].inverse_diagonal);
    }
    assert(hub_delta_scales(first, joints, hubs) =~= hub_delta_scales(second, joints, hubs)) by {
        assert forall|hub: int| 0 <= hub < hubs implies hub_delta_scales(first, joints, hubs)[hub]
            == hub_delta_scales(second, joints, hubs)[hub] by {
            assert(first[hub].inverse_diagonal == second[hub].inverse_diagonal);
        }
    }
}

proof fn lemma_first_joint<S: Scalar>(setup: Setup<S>, motion: Motion<S>)
    requires
        setup.well_formed(),
        motion.well_formed(setup),
    ensures
        setup.joints.len() > 0,
        setup.joints[0].a.body < motion.bodies.len(),
        motion.scale.len() <= motion.bodies.len(),
{
    let n = setup.grid_size as int;
    lemma_counts(n);
    assert(setup.joints[0] == net_joint::<S>(n, 0));
}

/// With the coefficients of a step all rods of a net resist their joints equally.
pub proof fn lemma_rods_share_weight<S: Scalar>(
    setup: Setup<S>,
    motion: Motion<S>,
    dt: S,
    joint: int,
)
    requires
        setup.well_formed(),
        motion.well_formed(setup),
        coefficients_of(setup, motion, dt),
        0 <= joint < joint_total(setup.grid_size as int),
    ensures
        0 <= setup.joints[joint].a.body < motion.bodies.len(),
        !motion.bodies[setup.joints[joint].a.body as int].fixed,
        inverse_rod_weight(motion.bodies[setup.joints[joint].a.body as int]) == common_rod_weight(
            motion.bodies,
            setup.joints,
        ),
{
    let n = setup.grid_size as int;
    lemma_counts(n);
    assert(setup.joints[joint] == net_joint::<S>(n, joint));
    assert(setup.joints[0] == net_joint::<S>(n, 0));
    let rod = motion.bodies[hub_total(n) + joint / 2];
    let first = motion.bodies[hub_total(n)];
    assert((rod.kind, rod.fixed) == layout(setup.scene, n, hub_total(n) + joint / 2));
    assert((first.kind, first.fixed) == layout(setup.scene, n, hub_total(n)));
    assert(rod == rod.with_coefficients(dt));
    assert(first == first.with_coefficients(dt));
}

/// With the coefficients of a step the weights of a hub's rods add up as often as the hub has
/// joints.
pub proof fn lemma_uniform_sum<S: Scalar>(
    setup: Setup<S>,
    motion: Motion<S>,
    dt: S,
    count: int,
    hub: int,
)
    requires
        setup.well_formed(),
        motion.well_formed(setup),
        coefficients_of(setup, motion, dt),
        0 <= count <= joint_total(setup.grid_size as int),
    ensures
        rod_weight_sum(motion.bodies, setup.joints, count, hub) == repeated_sum(
            common_rod_weight(motion.bodies, setup.joints),
            incidences(setup.joints, count, hub),
        ),
    decreases count,
{
    if count > 0 {
        lemma_uniform_sum(setup, motion, dt, count - 1, hub);
        lemma_rods_share_weight(setup, motion, dt, 2 * ((count - 1) / 2));
    }
}

/// With the coefficients of a step, what scales the movement of a hub is the common
/// resistance of the rods times the factor that the weights of its own rods, one by one,
/// give.
pub proof fn lemma_uniform_scales<S: Scalar>(
    setup: Setup<S>,
    motion: Motion<S>,
    dt: S,
    hub: int,
)
    requires
        setup.well_formed(),
        motion.well_formed(setup),
        coefficients_of(setup, motion, dt),
        0 <= hub < hub_total(setup.grid_size as int),
    ensures
        motion.scale[hub] == common_rod_weight(motion.bodies, setup.joints).times(
            schur_factor(
                motion.bodies[hub],
                rod_weight_sum(motion.bodies, setup.joints, setup.joints.len() as int, hub),
            ),
        ),
{
    let n = setup.grid_size as int;
    lemma_counts(n);
    lemma_uniform_sum(setup, motion, dt, setup.joints.len() as int, hub);
    assert(motion.scale[hub] == hub_delta_scales(
        motion.bodies,
        setup.joints,
        motion.scale.len(),
    )[hub]);
}

/// The coefficients of a motion in which bodies have only moved are those it had.
pub proof fn lemma_coefficients_kept<S: Scalar>(
    setup: Setup<S>,
    before: Motion<S>,
    after: Motion<S>,
    dt: S,
)
    requires
        setup.well_formed(),
        before.well_formed(setup),
        coefficients_of(setup, before, dt),
        projection_keeps(before, after),
    ensures
        coefficients_of(setup, after, dt),
{
    lemma_first_joint(setup, before);
    assert forall|i: int| 0 <= i < after.bodies.len() implies (#[trigger] after.bodies[i])
        == after.bodies[i].with_coefficients(dt) && before.bodies[i].inverse_diagonal
        == after.bodies[i].inverse_diagonal by {
        assert(body_only_moved(before.bodies[i], after.bodies[i]));
        assert(before.bodies[i] == before.bodies[i].with_coefficients(dt));
    }
    lemma_scales_local(before.bodies, after.bodies, setup.joints, before.scale.len());
}

/// A step of length `dt` starts with the coefficients of that length.
pub proof fn lemma_begun_coefficients<S: Scalar>(setup: Setup<S>, motion: Motion<S>, dt: S)
    requires
        setup.well_formed(),
        motion.well_formed(setup),
        motion.dt_bits == dt.bits() ==> coefficients_of(setup, motion, dt),
    ensures
        coefficients_of(setup, begun(setup, motion, dt), dt),
{
    let ready = prepared(setup, motion, dt);
    let start = begun(setup, motion, dt);
    lemma_first_joint(setup, motion);
    assert forall|i: int| 0 <= i < start.bodies.len() implies (#[trigger] start.bodies[i])
        == start.bodies[i].with_coefficients(dt) && ready.bodies[i].inverse_diagonal
        == start.bodies[i].inverse_diagonal by {
        if motion.dt_bits == dt.bits() {
            assert(motion.bodies[i] == motion.bodies[i].with_coefficients(dt));
        }
    }
    assert forall|i: int| 0 <= i < ready.bodies.len() implies (
    #[trigger] ready.bodies[i]).inverse_diagonal == start.bodies[i].inverse_diagonal by {
        assert(start.bodies[i] == start.bodies[i].with_coefficients(dt));
    }
    lemma_scales_local(ready.bodies, start.bodies, setup.joints, motion.scale.len());
}

/// A step of length `dt` leaves the coefficients of that length, whether it had to compute
/// them or found them there.
pub proof fn lemma_step_leaves_coefficients<S: Scalar>(
    setup: Setup<S>,
    motion: Motion<S>,
    dt: S,
    variant: Variant,
)
    requires
        setup.well_formed(),
        motion.well_formed(setup),
        motion.dt_bits == dt.bits() ==> coefficients_of(setup, motion, dt),
    ensures
        coefficients_of(setup, stepped(setup, motion, dt, variant), dt),
{
    let start = begun(setup, motion, dt);
    lemma_begun(setup, motion, dt);
    lemma_begun_coefficients(setup, motion, dt);
    lemma_projected(setup, start, variant, COROTATED_ITERATIONS as nat);
    lemma_coefficients_kept(
        setup,
        start,
        projected(setup, start, variant, COROTATED_ITERATIONS as nat),
        dt,
    );
}

/// A step that finds the coefficients of its length does what a step would do that has to
/// compute them.
pub proof fn lemma_cached_coefficients<S: Scalar>(
    setup: Setup<S>,
    motion: Motion<S>,
    dt: S,
    variant: Variant,
    other_bits: u64,
)
    requires
        setup.well_formed(),
        motion.well_formed(setup),
        coefficients_of(setup, motion, dt),
    ensures
        stepped(setup, Motion { dt_bits: other_bits, ..motion }, dt, variant) == stepped(
            setup,
            motion,
            dt,
            variant,
        ),
{
    let forced = Motion { dt_bits: other_bits, ..motion };
    if other_bits == motion.dt_bits {
        assert(forced == motion);
    } else {
        assert(with_coefficients(motion.bodies, dt) =~= motion.bodies);
        assert(prepared(setup, forced, dt) =~= motion);
        assert(prepared(setup, motion, dt) == motion);
    }
}

} // verus!
