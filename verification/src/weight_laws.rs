//! With masses, a stiffness and steps that are above zero the joint solve divides by nothing
//! that is zero, so that what holds of it in exact arithmetic holds of every demo.

use crate::body::{body_mass_per_point, AffineBody, BodyKind};
use crate::constants::{affine_stiffness, COROTATED_ITERATIONS};
use crate::dual::rod_weight_sum;
use crate::dual_laws::{divisible, lemma_rounds_agree, same_motion};
use crate::dual_step::{
    dual_coefficients, dual_jointed, dual_projected, lemma_dual_jointed, DualCoefficients,
};
use crate::field::{lemma_one, lemma_reciprocal, lemma_take_nothing};
use crate::grid::{hub_total, joint_total, lemma_counts};
use crate::joints::inverse_rod_weight;
use crate::laws::{coefficients_of, lemma_begun_coefficients, lemma_coefficients_kept};
use crate::least_laws::{allowed, effort, lemma_solve_is_closest, resistance};
use crate::net::{fits, net_joint};
use crate::order::{
    lemma_chain, lemma_compare, lemma_half, lemma_ordered_is_exact, lemma_part_of_sum, lemma_sign,
    lemma_square, ordered,
};
use crate::rotation_laws::{lemma_no_product_is_zero, lemma_positive, lemma_reciprocal_positive};
use crate::run_laws::{
    demo_setup, lemma_found_coefficients, lemma_run_coefficients, lemma_run_keeps_demo,
    lemma_told_apart_before, run, told_apart,
};
use crate::scalar::{half, one, quarter, zero, Scalar};
use crate::scene::DemoScene;
use crate::simulation::{
    begun, contacted, initial_motion, jointed, layout, lemma_begun, lemma_contacted, lemma_shaped,
    shaped, standard_variant, Motion, Setup, Variant,
};
use vstd::prelude::*;

verus! {

/// Whether the arithmetic is exact and ordered, no body has a negative mass, and the stiffness
/// is above zero.
pub open spec fn weighs<S: Scalar>() -> bool {
    &&& ordered::<S>()
    &&& zero::<S>() != one::<S>()
    &&& forall|kind: BodyKind| zero::<S>().at_most(#[trigger] body_mass_per_point(kind))
    &&& zero::<S>().below(affine_stiffness())
    &&& zero::<S>().at_most(quarter())
}

/// A free body with the coefficients of a step resists it, and gives way to it.
proof fn lemma_resists<S: Scalar>(body: AffineBody<S>, dt: S)
    requires
        weighs::<S>(),
        zero::<S>().below(dt),
        body == body.with_coefficients(dt),
    ensures
        zero::<S>().below(resistance(body)),
        zero::<S>().at_most(body.inverse_diagonal),
        !body.fixed ==> zero::<S>().below(body.inverse_diagonal),
{
    lemma_ordered_is_exact::<S>();
    lemma_compare(zero(), dt);
    lemma_compare(zero::<S>(), zero());
    let stiffness = affine_stiffness::<S>();
    lemma_compare(zero(), stiffness);
    assert(zero::<S>().at_most(body.inertia)) by {
        if !body.fixed {
            let square = dt.times(dt);
            let mass = body_mass_per_point::<S>(body.kind);
            lemma_square(dt);
            lemma_positive(square);
            if square == zero::<S>() {
                lemma_no_product_is_zero(dt, dt);
            }
            lemma_reciprocal_positive(square);
            lemma_compare(zero(), one::<S>().over(square));
            lemma_reciprocal(mass, square);
            lemma_sign(mass, one::<S>().over(square));
        }
    }
    lemma_part_of_sum(body.inertia, stiffness);
    lemma_compare(zero(), resistance(body));
    if resistance(body).at_most(zero()) {
        lemma_chain(stiffness, resistance(body), zero());
    }
    lemma_reciprocal_positive(resistance(body));
    lemma_compare(zero(), one::<S>().over(resistance(body)));
}

/// The weights of a hub's rods do not add up to less than zero.
proof fn lemma_weights_add<S: Scalar>(
    setup: Setup<S>,
    motion: Motion<S>,
    dt: S,
    count: int,
    hub: int,
)
    requires
        weighs::<S>(),
        zero::<S>().below(dt),
        setup.well_formed(),
        motion.well_formed(setup),
        coefficients_of(setup, motion, dt),
        0 <= count <= joint_total(setup.grid_size as int),
    ensures
        zero::<S>().at_most(rod_weight_sum(motion.bodies, setup.joints, count, hub)),
    decreases count,
{
    lemma_compare(zero::<S>(), zero());
    if count > 0 {
        let n = setup.grid_size as int;
        let pair = (count - 1) / 2;
        lemma_counts(n);
        lemma_weights_add(setup, motion, dt, count - 1, hub);
        assert(setup.joints[2 * pair] == net_joint::<S>(n, 2 * pair));
        lemma_rod_weight(setup, motion, dt, pair);
        lemma_part_of_sum(
            rod_weight_sum(motion.bodies, setup.joints, count - 1, hub),
            inverse_rod_weight(motion.bodies[hub_total(n) + pair]),
        );
    }
}

/// A rod can be moved at its joints, and resists it.
proof fn lemma_rod_weight<S: Scalar>(setup: Setup<S>, motion: Motion<S>, dt: S, rod: int)
    requires
        weighs::<S>(),
        zero::<S>().below(dt),
        setup.well_formed(),
        motion.well_formed(setup),
        coefficients_of(setup, motion, dt),
        0 <= rod < joint_total(setup.grid_size as int) / 2,
    ensures
        ({
            let body = motion.bodies[hub_total(setup.grid_size as int) + rod];
            &&& body.inverse_diagonal.times(half()) != zero::<S>()
            &&& zero::<S>().at_most(inverse_rod_weight(body))
        }),
{
    lemma_ordered_is_exact::<S>();
    let n = setup.grid_size as int;
    let body = motion.bodies[hub_total(n) + rod];
    lemma_counts(n);
    assert((body.kind, body.fixed) == layout(setup.scene, n, hub_total(n) + rod));
    assert(body == body.with_coefficients(dt));
    lemma_resists(body, dt);
    lemma_half::<S>();
    let inverse = body.inverse_diagonal;
    let halved = inverse.times(half());
    lemma_compare(zero(), inverse);
    if half::<S>() == zero::<S>() {
        lemma_take_nothing(zero::<S>());
    }
    lemma_sign(inverse, half());
    if halved == zero::<S>() {
        lemma_no_product_is_zero(inverse, half());
    }
    lemma_positive(halved);
    lemma_reciprocal_positive(halved);
    lemma_compare(zero(), inverse_rod_weight(body));
}

/// With the coefficients of a step above zero the joint solve divides by nothing that is zero,
/// and every body resists being moved.
pub proof fn lemma_divides<S: Scalar>(setup: Setup<S>, motion: Motion<S>, dt: S)
    requires
        weighs::<S>(),
        zero::<S>().below(dt),
        setup.well_formed(),
        motion.well_formed(setup),
        coefficients_of(setup, motion, dt),
    ensures
        divisible(setup, motion.bodies),
        forall|i: int|
            0 <= i < motion.bodies.len() ==> zero::<S>().below(
                resistance(#[trigger] motion.bodies[i]),
            ),
{
    lemma_ordered_is_exact::<S>();
    let n = setup.grid_size as int;
    let bodies = motion.bodies;
    lemma_counts(n);
    lemma_rod_weight(setup, motion, dt, 0);
    assert forall|hub: int| 0 <= hub < hub_total(n) && !(#[trigger] bodies[hub]).fixed implies
        one::<S>().plus(
        bodies[hub].inverse_diagonal.times(quarter()).times(
            rod_weight_sum(bodies, setup.joints, joint_total(n), hub),
        ),
    ) != zero::<S>() by {
        let part = bodies[hub].inverse_diagonal.times(quarter());
        let sum = rod_weight_sum(bodies, setup.joints, joint_total(n), hub);
        assert(bodies[hub] == bodies[hub].with_coefficients(dt));
        lemma_resists(bodies[hub], dt);
        lemma_weights_add(setup, motion, dt, joint_total(n), hub);
        lemma_sign(bodies[hub].inverse_diagonal, quarter());
        lemma_sign(part, sum);
        lemma_square(one::<S>());
        lemma_one(one::<S>());
        lemma_part_of_sum(one(), part.times(sum));
        lemma_compare(zero(), one::<S>());
        if one::<S>().plus(part.times(sum)) == zero::<S>() {
            lemma_compare(one(), zero::<S>());
        }
    }
    assert forall|i: int| 0 <= i < bodies.len() implies zero::<S>().below(
        resistance(#[trigger] bodies[i]),
    ) by {
        assert(bodies[i] == bodies[i].with_coefficients(dt));
        lemma_resists(bodies[i], dt);
    }
}

/// In exact arithmetic the joint solve of a round moves the bodies, from where their shapes
/// put them, to the closest placement that closes every joint and leaves the pinned bodies.
pub proof fn lemma_round_is_closest<S: Scalar>(
    setup: Setup<S>,
    motion: Motion<S>,
    dt: S,
    variant: Variant,
    other: Seq<AffineBody<S>>,
)
    requires
        weighs::<S>(),
        zero::<S>().below(dt),
        setup.well_formed(),
        motion.well_formed(setup),
        coefficients_of(setup, motion, dt),
        allowed(setup, shaped(setup, motion, variant).bodies, other),
    ensures
        ({
            let shapes = shaped(setup, motion, variant);
            let placed = jointed(setup, shapes).bodies;
            &&& allowed(setup, shapes.bodies, placed)
            &&& effort(shapes.bodies, shapes.bodies, placed).at_most(
                effort(shapes.bodies, shapes.bodies, other),
            )
        }),
{
    let shapes = shaped(setup, motion, variant);
    lemma_shaped(setup, motion, variant);
    lemma_coefficients_kept(setup, motion, shapes, dt);
    lemma_divides(setup, shapes, dt);
    lemma_solve_is_closest(setup, shapes, dt, other);
}

/// A demo after steps of the given lengths whose joint solve goes by multipliers.
pub open spec fn dual_run<S: Scalar>(
    scene: DemoScene,
    grid_size: usize,
    steps: Seq<S>,
) -> Motion<S>
    decreases steps.len(),
{
    if steps.len() == 0 {
        initial_motion(scene, grid_size)
    } else {
        let setup = demo_setup::<S>(scene, grid_size);
        let start = begun(setup, dual_run(scene, grid_size, steps.drop_last()), steps.last());
        dual_projected(
            setup,
            start,
            dual_coefficients(setup, start.bodies),
            COROTATED_ITERATIONS as nat,
        )
    }
}

/// The projections keep a demo a demo.
proof fn lemma_dual_rounds_keep<S: Scalar>(
    setup: Setup<S>,
    motion: Motion<S>,
    coefficients: DualCoefficients<S>,
    rounds: nat,
)
    requires
        setup.well_formed(),
        motion.well_formed(setup),
    ensures
        dual_projected(setup, motion, coefficients, rounds).well_formed(setup),
    decreases rounds,
{
    if rounds > 0 {
        let shapes = shaped(setup, motion, standard_variant());
        let joined = dual_jointed(setup, shapes, coefficients);
        lemma_shaped(setup, motion, standard_variant());
        lemma_dual_jointed(setup, shapes, coefficients);
        lemma_contacted(setup, joined);
        lemma_dual_rounds_keep(
            setup,
            contacted(setup, joined),
            coefficients,
            (rounds - 1) as nat,
        );
    }
}

proof fn lemma_dual_run_keeps_demo<S: Scalar>(
    scene: DemoScene,
    grid_size: usize,
    steps: Seq<S>,
)
    requires
        grid_size >= 2,
        fits(grid_size),
    ensures
        demo_setup::<S>(scene, grid_size).well_formed(),
        dual_run(scene, grid_size, steps).well_formed(demo_setup(scene, grid_size)),
    decreases steps.len(),
{
    let setup = demo_setup::<S>(scene, grid_size);
    lemma_run_keeps_demo(scene, grid_size, Seq::<S>::empty(), standard_variant());
    if steps.len() > 0 {
        let before = dual_run(scene, grid_size, steps.drop_last());
        let start = begun(setup, before, steps.last());
        lemma_dual_run_keeps_demo(scene, grid_size, steps.drop_last());
        lemma_begun(setup, before, steps.last());
        lemma_dual_rounds_keep(
            setup,
            start,
            dual_coefficients(setup, start.bodies),
            COROTATED_ITERATIONS as nat,
        );
    }
}

/// In exact arithmetic a run whose joint solve goes by multipliers is a run with the direct
/// solve.
pub proof fn lemma_dual_run_is_run<S: Scalar>(scene: DemoScene, grid_size: usize, steps: Seq<S>)
    requires
        weighs::<S>(),
        grid_size >= 2,
        fits(grid_size),
        told_apart(steps),
        forall|i: int| 0 <= i < steps.len() ==> zero::<S>().below(#[trigger] steps[i]),
    ensures
        same_motion(
            run(scene, grid_size, steps, standard_variant()),
            dual_run(scene, grid_size, steps),
        ),
    decreases steps.len(),
{
    if steps.len() > 0 {
        lemma_ordered_is_exact::<S>();
        let setup = demo_setup::<S>(scene, grid_size);
        let earlier = steps.drop_last();
        let dt = steps.last();
        let variant = standard_variant();
        let direct = run(scene, grid_size, earlier, variant);
        let dual = dual_run(scene, grid_size, earlier);
        assert(dt == steps[steps.len() - 1]);
        assert forall|i: int| 0 <= i < earlier.len() implies zero::<S>().below(
            #[trigger] earlier[i],
        ) by {
            assert(earlier[i] == steps[i]);
        }
        lemma_told_apart_before(steps);
        lemma_dual_run_is_run(scene, grid_size, earlier);
        lemma_run_keeps_demo(scene, grid_size, earlier, variant);
        lemma_run_coefficients(scene, grid_size, earlier, variant);
        lemma_found_coefficients(scene, grid_size, steps, variant);
        let start = begun(setup, direct, dt);
        lemma_begun(setup, direct, dt);
        lemma_begun_coefficients(setup, direct, dt);
        lemma_divides(setup, start, dt);
        lemma_dual_run_keeps_demo(scene, grid_size, earlier);
        let other = begun(setup, dual, dt);
        lemma_begun(setup, dual, dt);
        assert(same_motion(start, other));
        lemma_rounds_agree(setup, start, other, dt, COROTATED_ITERATIONS as nat);
    }
}

} // verus!
