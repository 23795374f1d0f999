//! What holds of a whole run: a demo from its start, through any number of steps.

use crate::constants::COROTATED_ITERATIONS;
use crate::exact::{joints_closed, lemma_step_closes_joints};
use crate::field::exact;
use crate::grid::{lemma_counts, net_total};
use crate::laws::{
    coefficients_of, lemma_cached_coefficients, lemma_start, lemma_step_leaves_coefficients,
};
use crate::net::{ball_total, fits, initial_bodies, initial_cylinder, net_joints};
use crate::scalar::Scalar;
use crate::scene::DemoScene;
use crate::simulation::{
    begun, damping, initial_motion, lemma_begun, lemma_fixed_bodies_stay, lemma_projected,
    lemma_step_keeps_demo, prepared, stepped, Motion, Setup, Variant,
};
use vstd::prelude::*;

verus! {

/// What stays through the steps of a demo.
pub open spec fn demo_setup<S: Scalar>(scene: DemoScene, grid_size: usize) -> Setup<S> {
    let n = grid_size as int;
    Setup {
        scene,
        grid_size,
        joints: net_joints::<S>(n),
        cylinder: initial_cylinder::<S>(scene, grid_size),
        balls: Seq::new(ball_total(scene) as nat, |i: int| (net_total(n) + i) as usize),
    }
}

/// A demo after steps of the given lengths.
pub open spec fn run<S: Scalar>(
    scene: DemoScene,
    grid_size: usize,
    steps: Seq<S>,
    variant: Variant,
) -> Motion<S>
    decreases steps.len(),
{
    if steps.len() == 0 {
        initial_motion(scene, grid_size)
    } else {
        stepped(
            demo_setup(scene, grid_size),
            run(scene, grid_size, steps.drop_last(), variant),
            steps.last(),
            variant,
        )
    }
}

/// A demo after steps of the given lengths, each of which computes its coefficients anew.
pub open spec fn forced_run<S: Scalar>(
    scene: DemoScene,
    grid_size: usize,
    steps: Seq<S>,
    variant: Variant,
) -> Motion<S>
    decreases steps.len(),
{
    if steps.len() == 0 {
        initial_motion(scene, grid_size)
    } else {
        let before = forced_run(scene, grid_size, steps.drop_last(), variant);
        stepped(
            demo_setup(scene, grid_size),
            Motion { dt_bits: u64::MAX, ..before },
            steps.last(),
            variant,
        )
    }
}

/// Whether the bits of a number tell the lengths of steps apart, and from no length at all.
pub open spec fn told_apart<S: Scalar>(steps: Seq<S>) -> bool {
    &&& forall|i: int| 0 <= i < steps.len() ==> (#[trigger] steps[i]).bits() != u64::MAX
    &&& forall|i: int, j: int|
        0 <= i < steps.len() && 0 <= j < steps.len() && (#[trigger] steps[i]).bits() == (
        #[trigger] steps[j]).bits() ==> steps[i] == steps[j]
}

proof fn lemma_demo_setup<S: Scalar>(scene: DemoScene, grid_size: usize)
    requires
        grid_size >= 2,
        fits(grid_size),
    ensures
        demo_setup::<S>(scene, grid_size).well_formed(),
        initial_motion::<S>(scene, grid_size).well_formed(demo_setup(scene, grid_size)),
{
    lemma_counts(grid_size as int);
    lemma_start::<S>(scene, grid_size);
}

/// What stays through the steps of a simulation is what stays through those of its demo.
pub proof fn lemma_setup_is_demo_setup<S: Scalar>(setup: Setup<S>)
    requires
        setup.well_formed(),
    ensures
        setup == demo_setup::<S>(setup.scene, setup.grid_size),
{
    assert(setup =~= demo_setup::<S>(setup.scene, setup.grid_size));
}

/// A run keeps a demo a demo: the same bodies in the same order, the same of them pinned.
pub proof fn lemma_run_keeps_demo<S: Scalar>(
    scene: DemoScene,
    grid_size: usize,
    steps: Seq<S>,
    variant: Variant,
)
    requires
        grid_size >= 2,
        fits(grid_size),
    ensures
        demo_setup::<S>(scene, grid_size).well_formed(),
        run(scene, grid_size, steps, variant).well_formed(demo_setup(scene, grid_size)),
    decreases steps.len(),
{
    lemma_demo_setup::<S>(scene, grid_size);
    if steps.len() > 0 {
        lemma_run_keeps_demo(scene, grid_size, steps.drop_last(), variant);
        lemma_step_keeps_demo(
            demo_setup(scene, grid_size),
            run(scene, grid_size, steps.drop_last(), variant),
            steps.last(),
            variant,
        );
    }
}

/// A pinned body is where it started after any run.
pub proof fn lemma_run_leaves_pinned<S: Scalar>(
    scene: DemoScene,
    grid_size: usize,
    steps: Seq<S>,
    variant: Variant,
    body: int,
)
    requires
        grid_size >= 2,
        fits(grid_size),
        0 <= body < initial_bodies::<S>(scene, grid_size).len(),
        initial_bodies::<S>(scene, grid_size)[body].fixed,
    ensures
        run(scene, grid_size, steps, variant).bodies.len() == initial_bodies::<S>(
            scene,
            grid_size,
        ).len(),
        run(scene, grid_size, steps, variant).bodies[body].fixed,
        run(scene, grid_size, steps, variant).bodies[body].positions == initial_bodies::<S>(
            scene,
            grid_size,
        )[body].positions,
    decreases steps.len(),
{
    lemma_start::<S>(scene, grid_size);
    lemma_run_keeps_demo(scene, grid_size, steps, variant);
    let start = initial_bodies::<S>(scene, grid_size);
    let after = run(scene, grid_size, steps, variant).bodies;
    assert((start[body].kind, start[body].fixed) == (after[body].kind, after[body].fixed));
    if steps.len() > 0 {
        lemma_run_leaves_pinned(scene, grid_size, steps.drop_last(), variant, body);
        lemma_run_keeps_demo(scene, grid_size, steps.drop_last(), variant);
        lemma_fixed_bodies_stay(
            demo_setup(scene, grid_size),
            run(scene, grid_size, steps.drop_last(), variant),
            steps.last(),
            variant,
            body,
        );
    }
}

/// A demo has no coefficients before its first step, and after a step those of its length.
pub proof fn lemma_run_coefficients<S: Scalar>(
    scene: DemoScene,
    grid_size: usize,
    steps: Seq<S>,
    variant: Variant,
)
    requires
        grid_size >= 2,
        fits(grid_size),
        told_apart(steps),
    ensures
        steps.len() == 0 ==> run(scene, grid_size, steps, variant).dt_bits == u64::MAX,
        steps.len() > 0 ==> coefficients_of(
            demo_setup(scene, grid_size),
            run(scene, grid_size, steps, variant),
            steps.last(),
        ),
    decreases steps.len(),
{
    if steps.len() > 0 {
        let setup = demo_setup::<S>(scene, grid_size);
        let earlier = steps.drop_last();
        let before = run(scene, grid_size, earlier, variant);
        lemma_told_apart_before(steps);
        lemma_run_keeps_demo(scene, grid_size, earlier, variant);
        lemma_run_coefficients(scene, grid_size, earlier, variant);
        lemma_found_coefficients(scene, grid_size, steps, variant);
        lemma_step_leaves_coefficients(setup, before, steps.last(), variant);
    }
}

pub proof fn lemma_told_apart_before<S: Scalar>(steps: Seq<S>)
    requires
        steps.len() > 0,
        told_apart(steps),
    ensures
        told_apart(steps.drop_last()),
{
    let earlier = steps.drop_last();
    assert forall|i: int| 0 <= i < earlier.len() implies (#[trigger] earlier[i]).bits()
        != u64::MAX by {
        assert(earlier[i] == steps[i]);
    }
    assert forall|i: int, j: int|
        0 <= i < earlier.len() && 0 <= j < earlier.len() && (#[trigger] earlier[i]).bits() == (
        #[trigger] earlier[j]).bits() implies earlier[i] == earlier[j] by {
        assert(earlier[i] == steps[i] && earlier[j] == steps[j]);
    }
}

/// Coefficients that the last step of a run finds there are those of its length.
pub proof fn lemma_found_coefficients<S: Scalar>(
    scene: DemoScene,
    grid_size: usize,
    steps: Seq<S>,
    variant: Variant,
)
    requires
        grid_size >= 2,
        fits(grid_size),
        steps.len() > 0,
        told_apart(steps),
        steps.len() == 1 ==> run(scene, grid_size, steps.drop_last(), variant).dt_bits
            == u64::MAX,
        steps.len() > 1 ==> coefficients_of(
            demo_setup(scene, grid_size),
            run(scene, grid_size, steps.drop_last(), variant),
            steps.drop_last().last(),
        ),
    ensures
        ({
            let before = run(scene, grid_size, steps.drop_last(), variant);
            before.dt_bits == steps.last().bits() ==> coefficients_of(
                demo_setup(scene, grid_size),
                before,
                steps.last(),
            )
        }),
{
    let count = steps.len() as int;
    assert(steps.last() == steps[count - 1]);
    if count > 1 {
        assert(steps.drop_last().last() == steps[count - 2]);
    }
}

/// What a step of a run leaves: every body knows where it was before, and the coefficients
/// are those of the step.
pub proof fn lemma_run_step<S: Scalar>(
    scene: DemoScene,
    grid_size: usize,
    steps: Seq<S>,
    variant: Variant,
)
    requires
        grid_size >= 2,
        fits(grid_size),
        steps.len() > 0,
        told_apart(steps),
    ensures
        ({
            let before = run(scene, grid_size, steps.drop_last(), variant);
            let after = run(scene, grid_size, steps, variant);
            &&& after.bodies.len() == before.bodies.len()
            &&& after.previous == Seq::new(
                before.bodies.len(),
                |i: int| before.bodies[i].positions,
            )
            &&& after.dt_bits == steps.last().bits()
            &&& after.velocity_scale == damping(steps.last()).over(steps.last())
        }),
{
    let setup = demo_setup::<S>(scene, grid_size);
    let before = run(scene, grid_size, steps.drop_last(), variant);
    let start = begun(setup, before, steps.last());
    lemma_run_coefficients(scene, grid_size, steps, variant);
    lemma_run_keeps_demo(scene, grid_size, steps.drop_last(), variant);
    lemma_begun(setup, before, steps.last());
    lemma_projected(setup, start, variant, COROTATED_ITERATIONS as nat);
    assert(start.previous =~= Seq::new(
        before.bodies.len(),
        |i: int| before.bodies[i].positions,
    ));
}

/// Reusing coefficients never changes a run: a demo whose every step computes them anew ends
/// the same.
pub proof fn lemma_run_is_forced_run<S: Scalar>(
    scene: DemoScene,
    grid_size: usize,
    steps: Seq<S>,
    variant: Variant,
)
    requires
        grid_size >= 2,
        fits(grid_size),
        told_apart(steps),
    ensures
        run(scene, grid_size, steps, variant) == forced_run(scene, grid_size, steps, variant),
    decreases steps.len(),
{
    if steps.len() > 0 {
        let setup = demo_setup::<S>(scene, grid_size);
        let earlier = steps.drop_last();
        let before = run(scene, grid_size, earlier, variant);
        let forced = Motion { dt_bits: u64::MAX, ..before };
        let dt = steps.last();
        assert(dt == steps[steps.len() - 1]);
        lemma_told_apart_before(steps);
        lemma_run_is_forced_run(scene, grid_size, earlier, variant);
        lemma_run_keeps_demo(scene, grid_size, earlier, variant);
        lemma_run_coefficients(scene, grid_size, earlier, variant);
        lemma_found_coefficients(scene, grid_size, steps, variant);
        if before.dt_bits == dt.bits() {
            lemma_cached_coefficients(setup, before, dt, variant, u64::MAX);
        } else {
            assert(prepared(setup, forced, dt) == prepared(setup, before, dt));
        }
    }
}

/// In exact arithmetic every joint of a hanging net is closed after every step of a run.
pub proof fn lemma_run_closes_joints<S: Scalar>(
    grid_size: usize,
    steps: Seq<S>,
    variant: Variant,
)
    requires
        exact::<S>(),
        grid_size >= 2,
        fits(grid_size),
        steps.len() > 0,
        told_apart(steps),
    ensures
        joints_closed(
            run(DemoScene::JointGrid, grid_size, steps, variant).bodies,
            grid_size as int,
        ),
{
    let scene = DemoScene::JointGrid;
    lemma_told_apart_before(steps);
    lemma_run_keeps_demo(scene, grid_size, steps.drop_last(), variant);
    lemma_run_coefficients(scene, grid_size, steps.drop_last(), variant);
    lemma_found_coefficients(scene, grid_size, steps, variant);
    lemma_step_closes_joints(
        demo_setup(scene, grid_size),
        run(scene, grid_size, steps.drop_last(), variant),
        steps.last(),
        variant,
    );
}

} // verus!
