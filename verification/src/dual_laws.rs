//! What the joint solve by multipliers has to do with the direct solve: in exact arithmetic
//! both move the bodies alike.

use crate::attachment::point_of;
use crate::body::{
    body_only_moved, hub_attachment_center, hub_center, only_moved, rod_end, rod_joint_endpoints,
    rod_start, weighted_point, AffineBody, ControlPoints,
};
use crate::constants::COROTATED_ITERATIONS;
use crate::dual::{
    accumulate_attachment, accumulated_force, body_with_multipliers, force_response, hub_forces_of,
    hub_with_force, lemma_neighbor_sum_terms, no_force, pair_rod_weight, retracted,
    rod_end_residual, rod_weight_sum, rod_with_multipliers,
};
use crate::dual_step::{
    dual_coefficients, dual_jointed, dual_projected, joint_hubs, lemma_dual_jointed, multipliers,
};
use crate::exact::lemma_fixed_hub_still;
use crate::field::{
    exact, lemma_difference, lemma_difference_of_sums, lemma_distribute,
    lemma_distribute_difference, lemma_distribute_left, lemma_negated_product, lemma_negation,
    lemma_one, lemma_parts, lemma_product_associate, lemma_product_commute, lemma_quotient,
    lemma_take_nothing, lemma_undo, lemma_zero,
};
use crate::gather::{hub_delta, hub_deltas, joint_residual, joint_residuals, neighbor_sum};
use crate::grid::{
    down_joint, end_hub, hub_total, joint_hub, joint_total, left_joint, lemma_counts,
    lemma_hub_joints, lemma_index_row, lemma_joint_is_neighbor, right_joint, rod_total, start_hub,
    up_joint,
};
use crate::joints::{
    body_joint_corrected, common_rod_weight, hub_corrected, net_rod_corrected, repeated_sum,
    rod_corrected,
};
use crate::laws::{
    coefficients_of, degree, lemma_begun_coefficients, lemma_coefficients_kept,
    lemma_gather_is_scatter, lemma_hub_degree, lemma_rods_share_weight, lemma_uniform_scales,
    lemma_uniform_sum, scattered_sum,
};
use crate::net::{net_joint, net_joints};
use crate::scalar::{half, one, quarter, zero, Scalar};
use crate::simulation::{
    begun, contacted, jointed, layout, lemma_begun, lemma_contacted, lemma_jointed, lemma_shaped,
    projected, shaped, standard_variant, stepped, Motion, Setup,
};
use crate::vector::Vec3;
use vstd::prelude::*;

verus! {

proof fn lemma_scaled_sum<S: Scalar>(first: Vec3<S>, second: Vec3<S>, factor: S)
    requires
        exact::<S>(),
    ensures
        first.plus(second).scaled(factor) == first.scaled(factor).plus(second.scaled(factor)),
        Vec3::<S>::origin().scaled(factor) == Vec3::<S>::origin(),
{
    lemma_distribute(first.x, second.x, factor);
    lemma_distribute(first.y, second.y, factor);
    lemma_distribute(first.z, second.z, factor);
    lemma_zero(factor);
}

proof fn lemma_sum_of_differences<S: Scalar>(
    a: Vec3<S>,
    b: Vec3<S>,
    c: Vec3<S>,
    d: Vec3<S>,
)
    requires
        exact::<S>(),
    ensures
        a.minus(c).plus(b.minus(d)) == a.plus(b).minus(c.plus(d)),
        Vec3::<S>::origin().minus(Vec3::origin()) == Vec3::<S>::origin(),
{
    lemma_difference_of_sums(a.x, b.x, c.x, d.x);
    lemma_difference_of_sums(a.y, b.y, c.y, d.y);
    lemma_difference_of_sums(a.z, b.z, c.z, d.z);
    lemma_take_nothing(zero::<S>());
}

proof fn lemma_scaled_by_sum<S: Scalar>(vector: Vec3<S>, first: S, second: S)
    requires
        exact::<S>(),
    ensures
        vector.scaled(first).plus(vector.scaled(second)) == vector.scaled(first.plus(second)),
        vector.scaled(zero()) == Vec3::<S>::origin(),
{
    lemma_distribute_left(first, second, vector.x);
    lemma_distribute_left(first, second, vector.y);
    lemma_distribute_left(first, second, vector.z);
    lemma_zero(vector.x);
    lemma_zero(vector.y);
    lemma_zero(vector.z);
}

/// A factor common to the terms of a hub's joints comes out of their sum.
proof fn lemma_sum_scaled<S: Scalar>(
    n: int,
    hub: int,
    term: spec_fn(int) -> Vec3<S>,
    factor: S,
)
    requires
        exact::<S>(),
    ensures
        neighbor_sum(n, hub, |joint: int| term(joint).scaled(factor)) == neighbor_sum(
            n,
            hub,
            term,
        ).scaled(factor),
{
    let row = hub / n;
    let column = hub % n;
    let none = Vec3::<S>::origin();
    let left = term(left_joint(n, row, column));
    let right = term(right_joint(n, row, column));
    let up = term(up_joint(n, row, column));
    let down = term(down_joint(n, row, column));
    let after_left = if column > 0 {
        none.plus(left)
    } else {
        none
    };
    let after_right = if column + 1 < n {
        after_left.plus(right)
    } else {
        after_left
    };
    let after_up = if row > 0 {
        after_right.plus(up)
    } else {
        after_right
    };
    lemma_scaled_sum(none, left, factor);
    lemma_scaled_sum(after_left, right, factor);
    lemma_scaled_sum(after_right, up, factor);
    lemma_scaled_sum(after_up, down, factor);
}

/// The sum of differences over a hub's joints is the difference of the sums.
proof fn lemma_sum_difference<S: Scalar>(
    n: int,
    hub: int,
    first: spec_fn(int) -> Vec3<S>,
    second: spec_fn(int) -> Vec3<S>,
)
    requires
        exact::<S>(),
    ensures
        neighbor_sum(n, hub, |joint: int| first(joint).minus(second(joint))) == neighbor_sum(
            n,
            hub,
            first,
        ).minus(neighbor_sum(n, hub, second)),
{
    let row = hub / n;
    let column = hub % n;
    let none = Vec3::<S>::origin();
    let left = left_joint(n, row, column);
    let right = right_joint(n, row, column);
    let up = up_joint(n, row, column);
    let down = down_joint(n, row, column);
    let (first_left, second_left) = if column > 0 {
        (none.plus(first(left)), none.plus(second(left)))
    } else {
        (none, none)
    };
    let (first_right, second_right) = if column + 1 < n {
        (first_left.plus(first(right)), second_left.plus(second(right)))
    } else {
        (first_left, second_left)
    };
    let (first_up, second_up) = if row > 0 {
        (first_right.plus(first(up)), second_right.plus(second(up)))
    } else {
        (first_right, second_right)
    };
    lemma_sum_of_differences(none, first(left), none, second(left));
    lemma_sum_of_differences(first_left, first(right), second_left, second(right));
    lemma_sum_of_differences(first_right, first(up), second_right, second(up));
    lemma_sum_of_differences(first_up, first(down), second_up, second(down));
}

/// A term that is the same for all joints of a hub adds up as its factor does.
proof fn lemma_sum_constant<S: Scalar>(n: int, hub: int, term: Vec3<S>, factor: S)
    requires
        exact::<S>(),
        0 <= hub / n < n,
        0 <= hub % n < n,
    ensures
        neighbor_sum(n, hub, |joint: int| term.scaled(factor)) == term.scaled(
            repeated_sum(factor, degree(n, hub)),
        ),
{
    reveal_with_fuel(repeated_sum, 5);
    let none = zero::<S>();
    let once = none.plus(factor);
    let twice = once.plus(factor);
    let thrice = twice.plus(factor);
    lemma_scaled_by_sum(term, none, factor);
    lemma_scaled_by_sum(term, once, factor);
    lemma_scaled_by_sum(term, twice, factor);
    lemma_scaled_by_sum(term, thrice, factor);
}

/// A hub with the coupling `c` to rods that resist with `sum` keeps, of what moves it, the
/// part that its factor says.
proof fn lemma_factor<S: Scalar>(c: S, sum: S)
    requires
        exact::<S>(),
        one::<S>().plus(c.times(sum)) != zero::<S>(),
    ensures
        ({
            let factor = c.over(one::<S>().plus(c.times(sum)));
            c.minus(factor.times(sum).times(c)) == factor
        }),
{
    let divisor = one::<S>().plus(c.times(sum));
    let factor = c.over(divisor);
    let rest = factor.times(sum).times(c);
    lemma_quotient(c, divisor);
    lemma_distribute_left(one(), c.times(sum), factor);
    lemma_one(factor);
    lemma_product_commute(c, sum);
    lemma_product_associate(factor, sum, c);
    assert(c == factor.plus(rest));
    lemma_undo(factor, rest);
}

/// One coordinate of the movement of a hub: what the multipliers push it by is what the
/// direct solve moves it by.
proof fn lemma_push<S: Scalar>(total: S, weight: S, c: S, sum: S)
    requires
        exact::<S>(),
        one::<S>().plus(c.times(sum)) != zero::<S>(),
    ensures
        ({
            let factor = c.over(one::<S>().plus(c.times(sum)));
            let weighted = total.times(weight);
            weighted.minus(weighted.times(factor).times(sum)).times(c) == total.times(
                weight.times(factor),
            )
        }),
{
    let factor = c.over(one::<S>().plus(c.times(sum)));
    let weighted = total.times(weight);
    let taken = weighted.times(factor).times(sum);
    lemma_factor(c, sum);
    lemma_distribute_difference(weighted, taken, c);
    lemma_product_associate(weighted, factor, sum);
    lemma_product_associate(weighted, factor.times(sum), c);
    assert(taken.times(c) == weighted.times(factor.times(sum).times(c)));
    lemma_distribute_difference(c, factor.times(sum).times(c), weighted);
    lemma_product_associate(total, weight, factor);
}

/// The force of a hub's joints as one coordinate of their multipliers' sum.
proof fn lemma_force<S: Scalar>(sum: S, inverse: S, delta: S)
    requires
        exact::<S>(),
        sum.times(inverse.times(quarter())) == delta,
    ensures
        zero::<S>().minus(sum).times(quarter()).times(inverse) == delta.negated(),
{
    lemma_take_nothing(sum);
    lemma_negated_product(sum, quarter());
    lemma_negated_product(sum.times(quarter()), inverse);
    lemma_product_associate(sum, quarter(), inverse);
    lemma_product_commute(quarter(), inverse);
}

/// One coordinate of the correction of a rod end: weight and inverse weight cancel.
proof fn lemma_end<S: Scalar>(gap: S, inverse: S)
    requires
        exact::<S>(),
        inverse.times(half()) != zero::<S>(),
    ensures
        gap.times(one::<S>().over(inverse.times(half()))).times(half()).times(inverse) == gap,
{
    let weight = one::<S>().over(inverse.times(half()));
    lemma_quotient(one(), inverse.times(half()));
    lemma_product_associate(gap.times(weight), half(), inverse);
    lemma_product_commute(half(), inverse);
    lemma_product_associate(gap, weight, inverse.times(half()));
    lemma_one(gap);
}

/// Whether the joint solve of a net divides by nothing that is zero: its rods can move, and
/// no hub that can move balances its rods.
pub open spec fn divisible<S: Scalar>(setup: Setup<S>, bodies: Seq<AffineBody<S>>) -> bool {
    let n = setup.grid_size as int;
    &&& bodies[hub_total(n)].inverse_diagonal.times(half()) != zero::<S>()
    &&& forall|hub: int|
        0 <= hub < hub_total(n) && !(#[trigger] bodies[hub]).fixed ==> one::<S>().plus(
            bodies[hub].inverse_diagonal.times(quarter()).times(
                rod_weight_sum(bodies, setup.joints, joint_total(n), hub),
            ),
        ) != zero::<S>()
}

/// The part of a joint's residual that its hub takes is the movement of the hub.
proof fn lemma_taken<S: Scalar>(setup: Setup<S>, motion: Motion<S>, dt: S, hub: int)
    requires
        exact::<S>(),
        setup.well_formed(),
        motion.well_formed(setup),
        coefficients_of(setup, motion, dt),
        0 <= hub < hub_total(setup.grid_size as int),
    ensures
        ({
            let n = setup.grid_size as int;
            let residuals = joint_residuals(motion.residuals, motion.hubs, n);
            let coefficients = dual_coefficients(setup, motion.bodies);
            let weight = common_rod_weight(motion.bodies, setup.joints);
            let total = neighbor_sum(n, hub, |joint: int| residuals[joint]);
            let weighted = neighbor_sum(
                n,
                hub,
                |joint: int| residuals[joint].scaled(coefficients.rod_weights[joint / 2]),
            );
            let delta = hub_delta(motion.residuals, motion.hubs, motion.scale, n, hub);
            &&& weighted == total.scaled(weight)
            &&& weighted.scaled(coefficients.hub_factors[hub]) == delta
            &&& delta == total.scaled(weight.times(coefficients.hub_factors[hub]))
        }),
{
    let n = setup.grid_size as int;
    let residuals = joint_residuals(motion.residuals, motion.hubs, n);
    let coefficients = dual_coefficients(setup, motion.bodies);
    let weight = common_rod_weight(motion.bodies, setup.joints);
    let total = neighbor_sum(n, hub, |joint: int| residuals[joint]);
    let factor = coefficients.hub_factors[hub];
    lemma_counts(n);
    assert forall|joint: int| 0 <= joint < joint_total(n) implies #[trigger] coefficients.rod_weights[joint
        / 2] == weight by {
        lemma_rods_share_weight(setup, motion, dt, 2 * (joint / 2));
    }
    let given = |joint: int| residuals[joint].scaled(coefficients.rod_weights[joint / 2]);
    let plain = |joint: int| residuals[joint];
    let shared = |joint: int| plain(joint).scaled(weight);
    lemma_neighbor_sum_terms(n, hub, given, shared);
    lemma_sum_scaled(n, hub, plain, weight);
    let measured = |joint: int| joint_residual(motion.residuals, motion.hubs, n, joint);
    lemma_neighbor_sum_terms(n, hub, plain, measured);
    lemma_uniform_scales(setup, motion, dt, hub);
    assert(motion.scale[hub] == weight.times(factor));
    lemma_product_associate(total.x, weight, factor);
    lemma_product_associate(total.y, weight, factor);
    lemma_product_associate(total.z, weight, factor);
}

/// A sum over the joints of a hub depends on its terms at these joints alone.
proof fn lemma_sum_local<S: Scalar>(
    n: int,
    hub: int,
    first: spec_fn(int) -> Vec3<S>,
    second: spec_fn(int) -> Vec3<S>,
)
    requires
        n >= 2,
        0 <= hub < hub_total(n),
        forall|joint: int|
            0 <= joint < joint_total(n) && joint_hub(n, joint) == hub ==> #[trigger] first(joint)
                == second(joint),
    ensures
        neighbor_sum(n, hub, first) == neighbor_sum(n, hub, second),
{
    lemma_counts(n);
    lemma_index_row(n, n, hub);
    lemma_hub_joints(n, hub / n, hub % n);
}

/// The multipliers of a hub's joints add up to its weighted residuals less what the hub takes
/// of them.
proof fn lemma_multiplier_sum<S: Scalar>(setup: Setup<S>, motion: Motion<S>, dt: S, hub: int)
    requires
        exact::<S>(),
        setup.well_formed(),
        motion.well_formed(setup),
        coefficients_of(setup, motion, dt),
        0 <= hub < hub_total(setup.grid_size as int),
    ensures
        ({
            let n = setup.grid_size as int;
            let residuals = joint_residuals(motion.residuals, motion.hubs, n);
            let solution = multipliers(residuals, dual_coefficients(setup, motion.bodies), n);
            let weight = common_rod_weight(motion.bodies, setup.joints);
            let total = neighbor_sum(n, hub, |joint: int| residuals[joint]);
            let delta = hub_delta(motion.residuals, motion.hubs, motion.scale, n, hub);
            neighbor_sum(n, hub, |joint: int| solution[joint]) == total.scaled(weight).minus(
                delta.scaled(rod_weight_sum(motion.bodies, setup.joints, joint_total(n), hub)),
            )
        }),
{
    let n = setup.grid_size as int;
    let residuals = joint_residuals(motion.residuals, motion.hubs, n);
    let coefficients = dual_coefficients(setup, motion.bodies);
    let solution = multipliers(residuals, coefficients, n);
    let weight = common_rod_weight(motion.bodies, setup.joints);
    let delta = hub_delta(motion.residuals, motion.hubs, motion.scale, n, hub);
    lemma_counts(n);
    lemma_index_row(n, n, hub);
    lemma_taken(setup, motion, dt, hub);
    let weighted = |joint: int| residuals[joint].scaled(weight);
    let taken = |joint: int| delta.scaled(weight);
    let parts = |joint: int| weighted(joint).minus(taken(joint));
    assert forall|joint: int|
        0 <= joint < joint_total(n) && joint_hub(n, joint) == hub implies #[trigger] solution[joint]
        == parts(joint) by {
        lemma_rods_share_weight(setup, motion, dt, 2 * (joint / 2));
        lemma_joint_is_neighbor(n, joint);
        assert(joint_hubs(n)[joint] as int == hub);
        lemma_distribute_difference(residuals[joint].x, delta.x, weight);
        lemma_distribute_difference(residuals[joint].y, delta.y, weight);
        lemma_distribute_difference(residuals[joint].z, delta.z, weight);
    }
    lemma_sum_local(n, hub, |joint: int| solution[joint], parts);
    lemma_sum_difference(n, hub, weighted, taken);
    let plain = |joint: int| residuals[joint];
    lemma_sum_scaled(n, hub, plain, weight);
    lemma_sum_local(n, hub, weighted, |joint: int| plain(joint).scaled(weight));
    lemma_sum_constant(n, hub, delta, weight);
    lemma_uniform_sum(setup, motion, dt, joint_total(n), hub);
    lemma_hub_degree::<S>(n, hub);
}

/// The force of its multipliers pushes a hub against its movement by the direct solve.
proof fn lemma_hub_force<S: Scalar>(setup: Setup<S>, motion: Motion<S>, dt: S, hub: int)
    requires
        exact::<S>(),
        setup.well_formed(),
        motion.well_formed(setup),
        coefficients_of(setup, motion, dt),
        divisible(setup, motion.bodies),
        0 <= hub < hub_total(setup.grid_size as int),
    ensures
        ({
            let n = setup.grid_size as int;
            let residuals = joint_residuals(motion.residuals, motion.hubs, n);
            let solution = multipliers(residuals, dual_coefficients(setup, motion.bodies), n);
            hub_forces_of(solution, n)[hub].scaled(motion.bodies[hub].inverse_diagonal)
                == hub_delta(motion.residuals, motion.hubs, motion.scale, n, hub).negated()
        }),
{
    let n = setup.grid_size as int;
    let residuals = joint_residuals(motion.residuals, motion.hubs, n);
    let coefficients = dual_coefficients(setup, motion.bodies);
    let solution = multipliers(residuals, coefficients, n);
    let body = motion.bodies[hub];
    let delta = hub_delta(motion.residuals, motion.hubs, motion.scale, n, hub);
    let force = hub_forces_of(solution, n)[hub];
    lemma_counts(n);
    lemma_index_row(n, n, hub);
    if body.fixed {
        lemma_fixed_hub_still(setup, motion, dt, hub);
        assert(body == body.with_coefficients(dt));
        lemma_zero(force.x);
        lemma_zero(force.y);
        lemma_zero(force.z);
        lemma_take_nothing(zero::<S>());
    } else {
        let weight = common_rod_weight(motion.bodies, setup.joints);
        let total = neighbor_sum(n, hub, |joint: int| residuals[joint]);
        let resistance = rod_weight_sum(motion.bodies, setup.joints, joint_total(n), hub);
        let coupling = body.inverse_diagonal.times(quarter());
        let sum = neighbor_sum(n, hub, |joint: int| solution[joint]);
        lemma_taken(setup, motion, dt, hub);
        lemma_multiplier_sum(setup, motion, dt, hub);
        lemma_push(total.x, weight, coupling, resistance);
        lemma_push(total.y, weight, coupling, resistance);
        lemma_push(total.z, weight, coupling, resistance);
        assert(sum.scaled(coupling) == delta);
        let none = |joint: int| Vec3::<S>::origin();
        let plain = |joint: int| solution[joint];
        let opposite = |joint: int| none(joint).minus(plain(joint));
        assert forall|joint: int| 0 <= joint < joint_total(n) implies (
        #[trigger] solution[joint]).negated() == opposite(joint) by {
            lemma_take_nothing(solution[joint].x);
            lemma_take_nothing(solution[joint].y);
            lemma_take_nothing(solution[joint].z);
        }
        lemma_sum_difference(n, hub, none, plain);
        lemma_take_nothing(zero::<S>());
        assert(neighbor_sum(n, hub, none) == Vec3::<S>::origin());
        lemma_sum_scaled(n, hub, opposite, quarter());
        lemma_neighbor_sum_terms(
            n,
            hub,
            |joint: int| solution[joint].negated().scaled(quarter()),
            |joint: int| opposite(joint).scaled(quarter()),
        );
        assert(force == Vec3::<S>::origin().minus(sum).scaled(quarter()));
        lemma_force(sum.x, body.inverse_diagonal, delta.x);
        lemma_force(sum.y, body.inverse_diagonal, delta.y);
        lemma_force(sum.z, body.inverse_diagonal, delta.z);
    }
}

/// The force of its multipliers moves a hub as the direct solve does.
proof fn lemma_hub_agrees<S: Scalar>(setup: Setup<S>, motion: Motion<S>, dt: S, hub: int)
    requires
        exact::<S>(),
        setup.well_formed(),
        motion.well_formed(setup),
        coefficients_of(setup, motion, dt),
        divisible(setup, motion.bodies),
        0 <= hub < hub_total(setup.grid_size as int),
    ensures
        ({
            let n = setup.grid_size as int;
            let residuals = joint_residuals(motion.residuals, motion.hubs, n);
            let solution = multipliers(residuals, dual_coefficients(setup, motion.bodies), n);
            hub_with_force(motion.bodies[hub], hub_forces_of(solution, n)[hub]) == hub_corrected(
                motion.bodies[hub],
                hub_delta(motion.residuals, motion.hubs, motion.scale, n, hub),
            )
        }),
{
    let n = setup.grid_size as int;
    let delta = hub_delta(motion.residuals, motion.hubs, motion.scale, n, hub);
    let points = motion.bodies[hub].positions;
    lemma_hub_force(setup, motion, dt, hub);
    lemma_retreat(points.p0, delta);
    lemma_retreat(points.p1, delta);
    lemma_retreat(points.p2, delta);
    lemma_retreat(points.p3, delta);
}

proof fn lemma_retreat<S: Scalar>(point: Vec3<S>, delta: Vec3<S>)
    requires
        exact::<S>(),
    ensures
        point.minus(delta.negated()) == point.plus(delta),
{
    lemma_difference(point.x, delta.x.negated());
    lemma_difference(point.y, delta.y.negated());
    lemma_difference(point.z, delta.z.negated());
    lemma_negation(delta.x, delta.x);
    lemma_negation(delta.y, delta.y);
    lemma_negation(delta.z, delta.z);
}

/// The multiplier of a joint corrects its rod end by its residual less the movement of its
/// hub.
proof fn lemma_end_agrees<S: Scalar>(setup: Setup<S>, motion: Motion<S>, dt: S, joint: int)
    requires
        exact::<S>(),
        setup.well_formed(),
        motion.well_formed(setup),
        coefficients_of(setup, motion, dt),
        divisible(setup, motion.bodies),
        0 <= joint < joint_total(setup.grid_size as int),
    ensures
        ({
            let n = setup.grid_size as int;
            let residuals = joint_residuals(motion.residuals, motion.hubs, n);
            let solution = multipliers(residuals, dual_coefficients(setup, motion.bodies), n);
            let rod = motion.bodies[hub_total(n) + joint / 2];
            solution[joint].scaled(half()).scaled(rod.inverse_diagonal) == residuals[joint].minus(
                hub_delta(motion.residuals, motion.hubs, motion.scale, n, joint_hub(n, joint)),
            )
        }),
{
    let n = setup.grid_size as int;
    let residuals = joint_residuals(motion.residuals, motion.hubs, n);
    let coefficients = dual_coefficients(setup, motion.bodies);
    let solution = multipliers(residuals, coefficients, n);
    let hub = joint_hub(n, joint);
    let rod = motion.bodies[hub_total(n) + joint / 2];
    let first = motion.bodies[hub_total(n)];
    lemma_counts(n);
    lemma_joint_is_neighbor(n, joint);
    lemma_taken(setup, motion, dt, hub);
    lemma_rods_share_weight(setup, motion, dt, 2 * (joint / 2));
    assert(setup.joints[2 * (joint / 2)] == net_joint::<S>(n, 2 * (joint / 2)));
    assert(joint_hubs(n)[joint] as int == hub);
    assert((rod.kind, rod.fixed) == layout(setup.scene, n, hub_total(n) + joint / 2));
    assert((first.kind, first.fixed) == layout(setup.scene, n, hub_total(n)));
    assert(rod == rod.with_coefficients(dt));
    assert(first == first.with_coefficients(dt));
    assert(coefficients.rod_weights[joint / 2] == one::<S>().over(
        rod.inverse_diagonal.times(half()),
    ));
    let delta = hub_delta(motion.residuals, motion.hubs, motion.scale, n, hub);
    let gap = residuals[joint].minus(delta);
    lemma_end(gap.x, rod.inverse_diagonal);
    lemma_end(gap.y, rod.inverse_diagonal);
    lemma_end(gap.z, rod.inverse_diagonal);
}

proof fn lemma_same_correction<S: Scalar>(
    rod: AffineBody<S>,
    start: Vec3<S>,
    end: Vec3<S>,
    residuals: (Vec3<S>, Vec3<S>),
    deltas: (Vec3<S>, Vec3<S>),
)
    requires
        start.scaled(half()).scaled(rod.inverse_diagonal) == residuals.0.minus(deltas.0),
        end.scaled(half()).scaled(rod.inverse_diagonal) == residuals.1.minus(deltas.1),
    ensures
        rod_with_multipliers(rod, start, end) == rod_corrected(
            rod,
            residuals.0,
            residuals.1,
            deltas.0,
            deltas.1,
        ),
{
}

/// The multipliers of its joints correct a rod as the direct solve does.
proof fn lemma_rod_agrees<S: Scalar>(setup: Setup<S>, motion: Motion<S>, dt: S, rod: int)
    requires
        exact::<S>(),
        setup.well_formed(),
        motion.well_formed(setup),
        coefficients_of(setup, motion, dt),
        divisible(setup, motion.bodies),
        0 <= rod < rod_total(setup.grid_size as int),
    ensures
        ({
            let n = setup.grid_size as int;
            let residuals = joint_residuals(motion.residuals, motion.hubs, n);
            let solution = multipliers(residuals, dual_coefficients(setup, motion.bodies), n);
            rod_with_multipliers(
                motion.bodies[hub_total(n) + rod],
                solution[2 * rod],
                solution[2 * rod + 1],
            ) == rod_corrected(
                motion.bodies[hub_total(n) + rod],
                residuals[2 * rod],
                residuals[2 * rod + 1],
                hub_delta(motion.residuals, motion.hubs, motion.scale, n, start_hub(n, rod)),
                hub_delta(motion.residuals, motion.hubs, motion.scale, n, end_hub(n, rod)),
            )
        }),
{
    let n = setup.grid_size as int;
    let residuals = joint_residuals(motion.residuals, motion.hubs, n);
    let solution = multipliers(residuals, dual_coefficients(setup, motion.bodies), n);
    lemma_counts(n);
    lemma_end_agrees(setup, motion, dt, 2 * rod);
    lemma_end_agrees(setup, motion, dt, 2 * rod + 1);
    lemma_same_correction(
        motion.bodies[hub_total(n) + rod],
        solution[2 * rod],
        solution[2 * rod + 1],
        (residuals[2 * rod], residuals[2 * rod + 1]),
        (
            hub_delta(motion.residuals, motion.hubs, motion.scale, n, start_hub(n, rod)),
            hub_delta(motion.residuals, motion.hubs, motion.scale, n, end_hub(n, rod)),
        ),
    );
}

/// The hub movements in a list, one by one.
proof fn lemma_delta_at<S: Scalar>(setup: Setup<S>, motion: Motion<S>, hub: int)
    requires
        motion.well_formed(setup),
        0 <= hub < hub_total(setup.grid_size as int),
    ensures
        ({
            let n = setup.grid_size as int;
            hub_deltas(motion.residuals, motion.hubs, motion.scale, n)[hub] == hub_delta(
                motion.residuals,
                motion.hubs,
                motion.scale,
                n,
                hub,
            )
        }),
{
}

/// The hubs of a rod are hubs of the net.
proof fn lemma_rod_hubs(n: int, rod: int)
    requires
        n >= 2,
        0 <= rod < rod_total(n),
    ensures
        0 <= start_hub(n, rod) < hub_total(n),
        0 <= end_hub(n, rod) < hub_total(n),
{
    lemma_counts(n);
    lemma_joint_is_neighbor(n, 2 * rod);
    lemma_joint_is_neighbor(n, 2 * rod + 1);
}

/// What the direct solve makes of a rod, with the movements of its hubs.
proof fn lemma_direct_rod<S: Scalar>(setup: Setup<S>, motion: Motion<S>, rod: int)
    requires
        setup.well_formed(),
        motion.well_formed(setup),
        0 <= rod < rod_total(setup.grid_size as int),
    ensures
        ({
            let n = setup.grid_size as int;
            let residuals = joint_residuals(motion.residuals, motion.hubs, n);
            net_rod_corrected(
                motion.bodies[hub_total(n) + rod],
                rod,
                residuals,
                hub_deltas(motion.residuals, motion.hubs, motion.scale, n),
                n,
            ) == rod_corrected(
                motion.bodies[hub_total(n) + rod],
                residuals[2 * rod],
                residuals[2 * rod + 1],
                hub_delta(motion.residuals, motion.hubs, motion.scale, n, start_hub(n, rod)),
                hub_delta(motion.residuals, motion.hubs, motion.scale, n, end_hub(n, rod)),
            )
        }),
{
    let n = setup.grid_size as int;
    lemma_rod_hubs(n, rod);
    lemma_delta_at(setup, motion, start_hub(n, rod));
    lemma_delta_at(setup, motion, end_hub(n, rod));
}

/// The multipliers move a body as the direct solve does.
proof fn lemma_body_agrees<S: Scalar>(setup: Setup<S>, motion: Motion<S>, dt: S, number: int)
    requires
        exact::<S>(),
        setup.well_formed(),
        motion.well_formed(setup),
        coefficients_of(setup, motion, dt),
        divisible(setup, motion.bodies),
        0 <= number < motion.bodies.len(),
    ensures
        ({
            let n = setup.grid_size as int;
            let residuals = joint_residuals(motion.residuals, motion.hubs, n);
            body_with_multipliers(
                motion.bodies[number],
                number,
                multipliers(residuals, dual_coefficients(setup, motion.bodies), n),
                n,
            ) == body_joint_corrected(
                motion.bodies[number],
                number,
                residuals,
                hub_deltas(motion.residuals, motion.hubs, motion.scale, n),
                n,
            )
        }),
{
    let n = setup.grid_size as int;
    lemma_counts(n);
    if number < hub_total(n) {
        lemma_hub_agrees(setup, motion, dt, number);
        lemma_delta_at(setup, motion, number);
    } else if number < hub_total(n) + rod_total(n) {
        let rod = number - hub_total(n);
        lemma_rod_agrees(setup, motion, dt, rod);
        lemma_direct_rod(setup, motion, rod);
    }
}

/// In exact arithmetic the solve by multipliers moves all bodies as the direct solve does.
pub proof fn lemma_dual_is_direct<S: Scalar>(setup: Setup<S>, motion: Motion<S>, dt: S)
    requires
        exact::<S>(),
        setup.well_formed(),
        motion.well_formed(setup),
        coefficients_of(setup, motion, dt),
        divisible(setup, motion.bodies),
    ensures
        dual_jointed(setup, motion, dual_coefficients(setup, motion.bodies)).bodies == jointed(
            setup,
            motion,
        ).bodies,
{
    let by_multipliers = dual_jointed(
        setup,
        motion,
        dual_coefficients(setup, motion.bodies),
    ).bodies;
    let direct = jointed(setup, motion).bodies;
    assert forall|i: int| 0 <= i < motion.bodies.len() implies by_multipliers[i] == direct[i] by {
        lemma_body_agrees(setup, motion, dt, i);
    }
    assert(by_multipliers =~= direct);
}

/// What the solve by multipliers needs of bodies does not change when they only move.
proof fn lemma_coefficients_local<S: Scalar>(
    setup: Setup<S>,
    before: Seq<AffineBody<S>>,
    after: Seq<AffineBody<S>>,
)
    requires
        setup.well_formed(),
        hub_total(setup.grid_size as int) + rod_total(setup.grid_size as int) <= before.len(),
        only_moved(before, after),
    ensures
        dual_coefficients(setup, after) == dual_coefficients(setup, before),
        divisible(setup, before) ==> divisible(setup, after),
{
    let n = setup.grid_size as int;
    lemma_counts(n);
    assert forall|i: int| 0 <= i < before.len() implies (#[trigger] after[i]).inverse_diagonal
        == before[i].inverse_diagonal && after[i].fixed == before[i].fixed by {
        assert(body_only_moved(before[i], after[i]));
    }
    assert forall|hub: int| 0 <= hub < hub_total(n) implies #[trigger] rod_weight_sum(
        after,
        setup.joints,
        joint_total(n),
        hub,
    ) == rod_weight_sum(before, setup.joints, joint_total(n), hub) by {
        lemma_weight_sum_local(setup, before, after, joint_total(n), hub);
    }
    assert forall|rod: int| 0 <= rod < rod_total(n) implies #[trigger] pair_rod_weight(
        after,
        setup.joints,
        rod,
    ) == pair_rod_weight(before, setup.joints, rod) by {
        assert(setup.joints[2 * rod] == net_joint::<S>(n, 2 * rod));
        assert(after[hub_total(n) + rod].inverse_diagonal == before[hub_total(n)
            + rod].inverse_diagonal);
    }
    assert(dual_coefficients(setup, after) =~= dual_coefficients(setup, before)) by {
        assert forall|hub: int| 0 <= hub < hub_total(n) implies dual_coefficients(
            setup,
            after,
        ).hub_factors[hub] == dual_coefficients(setup, before).hub_factors[hub] by {
            assert(after[hub].inverse_diagonal == before[hub].inverse_diagonal);
            assert(rod_weight_sum(after, setup.joints, joint_total(n), hub) == rod_weight_sum(
                before,
                setup.joints,
                joint_total(n),
                hub,
            ));
        }
    }
    if divisible(setup, before) {
        assert(after[hub_total(n)].inverse_diagonal == before[hub_total(n)].inverse_diagonal);
        assert forall|hub: int|
            0 <= hub < hub_total(n) && !(#[trigger] after[hub]).fixed implies one::<S>().plus(
            after[hub].inverse_diagonal.times(quarter()).times(
                rod_weight_sum(after, setup.joints, joint_total(n), hub),
            ),
        ) != zero::<S>() by {
            assert(!before[hub].fixed);
        }
    }
}

proof fn lemma_weight_sum_local<S: Scalar>(
    setup: Setup<S>,
    before: Seq<AffineBody<S>>,
    after: Seq<AffineBody<S>>,
    count: int,
    hub: int,
)
    requires
        setup.well_formed(),
        hub_total(setup.grid_size as int) + rod_total(setup.grid_size as int) <= before.len(),
        only_moved(before, after),
        0 <= count <= joint_total(setup.grid_size as int),
    ensures
        rod_weight_sum(after, setup.joints, count, hub) == rod_weight_sum(
            before,
            setup.joints,
            count,
            hub,
        ),
    decreases count,
{
    if count > 0 {
        let n = setup.grid_size as int;
        let rod = (count - 1) / 2;
        lemma_counts(n);
        lemma_weight_sum_local(setup, before, after, count - 1, hub);
        assert(setup.joints[2 * rod] == net_joint::<S>(n, 2 * rod));
        assert(body_only_moved(before[hub_total(n) + rod], after[hub_total(n) + rod]));
    }
}

/// Whether two motions differ at most in what a joint solve leaves in its scratch space.
pub open spec fn same_motion<S: Scalar>(first: Motion<S>, second: Motion<S>) -> bool {
    Motion { residuals: first.residuals, hubs: first.hubs, ..second } == first
}

/// In exact arithmetic rounds of projections end the same whichever way their joint solve goes.
pub proof fn lemma_rounds_agree<S: Scalar>(
    setup: Setup<S>,
    direct: Motion<S>,
    by_multipliers: Motion<S>,
    dt: S,
    rounds: nat,
)
    requires
        exact::<S>(),
        setup.well_formed(),
        direct.well_formed(setup),
        by_multipliers.well_formed(setup),
        same_motion(direct, by_multipliers),
        coefficients_of(setup, direct, dt),
        divisible(setup, direct.bodies),
    ensures
        same_motion(
            projected(setup, direct, standard_variant(), rounds),
            dual_projected(
                setup,
                by_multipliers,
                dual_coefficients(setup, direct.bodies),
                rounds,
            ),
        ),
    decreases rounds,
{
    if rounds > 0 {
        let n = setup.grid_size as int;
        let coefficients = dual_coefficients(setup, direct.bodies);
        let shapes = shaped(setup, direct, standard_variant());
        lemma_counts(n);
        assert(shaped(setup, by_multipliers, standard_variant()) == shapes);
        lemma_shaped(setup, direct, standard_variant());
        lemma_coefficients_kept(setup, direct, shapes, dt);
        lemma_coefficients_local(setup, direct.bodies, shapes.bodies);
        let first = jointed(setup, shapes);
        let second = dual_jointed(setup, shapes, coefficients);
        lemma_jointed(setup, shapes);
        lemma_dual_jointed(setup, shapes, coefficients);
        lemma_dual_is_direct(setup, shapes, dt);
        assert(same_motion(first, second));
        lemma_coefficients_kept(setup, shapes, first, dt);
        lemma_coefficients_local(setup, shapes.bodies, first.bodies);
        let first_end = contacted(setup, first);
        let second_end = contacted(setup, second);
        lemma_contacted(setup, first);
        lemma_contacted(setup, second);
        assert(same_motion(first_end, second_end));
        lemma_coefficients_kept(setup, first, first_end, dt);
        lemma_coefficients_local(setup, first.bodies, first_end.bodies);
        lemma_rounds_agree(setup, first_end, second_end, dt, (rounds - 1) as nat);
    }
}

/// In exact arithmetic a step whose joint solve goes by multipliers ends as a step with the
/// direct solve does.
pub proof fn lemma_dual_step_is_step<S: Scalar>(setup: Setup<S>, motion: Motion<S>, dt: S)
    requires
        exact::<S>(),
        setup.well_formed(),
        motion.well_formed(setup),
        motion.dt_bits == dt.bits() ==> coefficients_of(setup, motion, dt),
        divisible(setup, begun(setup, motion, dt).bodies),
    ensures
        ({
            let start = begun(setup, motion, dt);
            same_motion(
                stepped(setup, motion, dt, standard_variant()),
                dual_projected(
                    setup,
                    start,
                    dual_coefficients(setup, start.bodies),
                    COROTATED_ITERATIONS as nat,
                ),
            )
        }),
{
    let start = begun(setup, motion, dt);
    lemma_begun(setup, motion, dt);
    lemma_begun_coefficients(setup, motion, dt);
    lemma_rounds_agree(setup, start, start, dt, COROTATED_ITERATIONS as nat);
}

/// The joints of a net pull at a hub at all of its points alike.
proof fn lemma_force_on_hub<S: Scalar>(n: int, multiplier: Seq<Vec3<S>>, count: int, hub: int)
    requires
        n >= 2,
        hub_total(n) + rod_total(n) <= usize::MAX,
        0 <= hub < hub_total(n),
        0 <= count <= joint_total(n),
    ensures
        ({
            let pull = scattered_sum(
                net_joints::<S>(n),
                |joint: int| multiplier[joint].negated().scaled(quarter()),
                count,
                hub,
            );
            accumulated_force(net_joints::<S>(n), multiplier, count, hub) == ControlPoints::<S> {
                p0: pull,
                p1: pull,
                p2: pull,
                p3: pull,
            }
        }),
    decreases count,
{
    if count > 0 {
        lemma_counts(n);
        lemma_force_on_hub(n, multiplier, count - 1, hub);
        lemma_joint_is_neighbor(n, count - 1);
        assert(net_joints::<S>(n)[count - 1] == net_joint::<S>(n, count - 1));
    }
}

/// The points of a rod that its first joint pulls at.
spec fn pulled_at_start<S: Scalar>(pull: Vec3<S>) -> ControlPoints<S> {
    accumulate_attachment(no_force(), rod_start(), pull)
}

/// Only its own two joints pull at a rod.
proof fn lemma_force_on_rod<S: Scalar>(n: int, multiplier: Seq<Vec3<S>>, count: int, rod: int)
    requires
        n >= 2,
        hub_total(n) + rod_total(n) <= usize::MAX,
        0 <= rod < rod_total(n),
        0 <= count <= joint_total(n),
    ensures
        accumulated_force(net_joints::<S>(n), multiplier, count, hub_total(n) + rod) == (if count
            <= 2 * rod {
            no_force()
        } else if count == 2 * rod + 1 {
            pulled_at_start(multiplier[2 * rod])
        } else {
            accumulate_attachment(
                pulled_at_start(multiplier[2 * rod]),
                rod_end(),
                multiplier[2 * rod + 1],
            )
        }),
    decreases count,
{
    if count > 0 {
        lemma_counts(n);
        lemma_force_on_rod(n, multiplier, count - 1, rod);
        lemma_joint_is_neighbor(n, count - 1);
        assert(net_joints::<S>(n)[count - 1] == net_joint::<S>(n, count - 1));
    }
}

/// One coordinate of how far the end of a rod gives way to the pulls at its two ends.
proof fn lemma_rod_gives_way<S: Scalar>(here: S, there: S, inverse: S)
    requires
        exact::<S>(),
    ensures
        ({
            let near = zero::<S>().plus(here.times(half())).plus(there.times(zero())).times(inverse);
            let far = zero::<S>().plus(here.times(zero())).plus(there.times(half())).times(inverse);
            let response = here.times(half()).times(inverse);
            &&& near == response
            &&& far == there.times(half()).times(inverse)
        }),
        ({
            let response = here.times(half()).times(inverse);
            let other = there.times(half()).times(inverse);
            &&& zero::<S>().plus(response.times(half())).plus(response.times(half())).plus(
                other.times(zero()),
            ).plus(other.times(zero())) == response
            &&& zero::<S>().plus(response.times(zero())).plus(response.times(zero())).plus(
                other.times(half()),
            ).plus(other.times(half())) == other
        }),
{
    let response = here.times(half()).times(inverse);
    let other = there.times(half()).times(inverse);
    lemma_zero(here);
    lemma_zero(there);
    lemma_zero(response);
    lemma_zero(other);
    lemma_take_nothing(here.times(half()));
    lemma_take_nothing(there.times(half()));
    lemma_take_nothing(zero::<S>());
    lemma_parts(response);
    lemma_parts(other);
    lemma_take_nothing(response);
    lemma_take_nothing(response.times(half()));
    lemma_take_nothing(other.times(half()));
}

/// In exact arithmetic the multipliers solve the constraint matrix: what they do to the
/// residuals of the joints is what they were computed from.
pub proof fn lemma_multipliers_solve<S: Scalar>(
    setup: Setup<S>,
    motion: Motion<S>,
    dt: S,
    residuals: Seq<Vec3<S>>,
    joint: int,
)
    requires
        exact::<S>(),
        setup.well_formed(),
        motion.well_formed(setup),
        coefficients_of(setup, motion, dt),
        divisible(setup, motion.bodies),
        residuals.len() == joint_total(setup.grid_size as int),
        0 <= joint < joint_total(setup.grid_size as int),
    ensures
        ({
            let n = setup.grid_size as int;
            let solution = multipliers(residuals, dual_coefficients(setup, motion.bodies), n);
            let held = setup.joints[joint];
            weighted_point(
                force_response(motion.bodies, setup.joints, solution, held.a.body as int),
                held.a.weights,
            ).minus(
                weighted_point(
                    force_response(motion.bodies, setup.joints, solution, held.b.body as int),
                    held.b.weights,
                ),
            ) == residuals[joint]
        }),
{
    let n = setup.grid_size as int;
    let given = Motion {
        residuals,
        hubs: Seq::new(hub_total(n) as nat, |hub: int| Vec3::<S>::origin()),
        ..motion
    };
    lemma_counts(n);
    lemma_joint_is_neighbor(n, joint);
    assert(setup.joints[joint] == net_joint::<S>(n, joint));
    assert(joint_residuals(given.residuals, given.hubs, n) =~= residuals) by {
        assert forall|i: int| 0 <= i < joint_total(n) implies joint_residuals(
            given.residuals,
            given.hubs,
            n,
        )[i] == residuals[i] by {
            lemma_joint_is_neighbor(n, i);
            lemma_take_nothing(residuals[i].x);
            lemma_take_nothing(residuals[i].y);
            lemma_take_nothing(residuals[i].z);
        }
    }
    let solution = multipliers(residuals, dual_coefficients(setup, motion.bodies), n);
    let hub = joint_hub(n, joint);
    let rod = joint / 2;
    let delta = hub_delta(given.residuals, given.hubs, given.scale, n, hub);
    lemma_end_agrees(setup, given, dt, joint);
    lemma_hub_force(setup, given, dt, hub);
    lemma_rod_response(setup, motion, solution, joint);
    lemma_hub_response(setup, motion, solution, hub);
    lemma_retreat(residuals[joint].minus(delta), delta);
    lemma_undo(residuals[joint].x, delta.x);
    lemma_undo(residuals[joint].y, delta.y);
    lemma_undo(residuals[joint].z, delta.z);
}

/// The end of a rod gives way to the multiplier of its own joint alone.
proof fn lemma_rod_response<S: Scalar>(
    setup: Setup<S>,
    motion: Motion<S>,
    solution: Seq<Vec3<S>>,
    joint: int,
)
    requires
        exact::<S>(),
        setup.well_formed(),
        motion.well_formed(setup),
        solution.len() == joint_total(setup.grid_size as int),
        0 <= joint < joint_total(setup.grid_size as int),
    ensures
        ({
            let n = setup.grid_size as int;
            let rod = hub_total(n) + joint / 2;
            weighted_point(
                force_response(motion.bodies, setup.joints, solution, rod),
                setup.joints[joint].a.weights,
            ) == solution[joint].scaled(half()).scaled(motion.bodies[rod].inverse_diagonal)
        }),
{
    let n = setup.grid_size as int;
    let rod = joint / 2;
    let inverse = motion.bodies[hub_total(n) + rod].inverse_diagonal;
    let start = solution[2 * rod];
    let end = solution[2 * rod + 1];
    lemma_counts(n);
    assert(setup.joints[joint] == net_joint::<S>(n, joint));
    lemma_force_on_rod(n, solution, joint_total(n), rod);
    lemma_rod_gives_way(start.x, end.x, inverse);
    lemma_rod_gives_way(start.y, end.y, inverse);
    lemma_rod_gives_way(start.z, end.z, inverse);
}

/// The centre of a hub gives way to the force on its points.
proof fn lemma_hub_response<S: Scalar>(
    setup: Setup<S>,
    motion: Motion<S>,
    solution: Seq<Vec3<S>>,
    hub: int,
)
    requires
        exact::<S>(),
        setup.well_formed(),
        motion.well_formed(setup),
        solution.len() == joint_total(setup.grid_size as int),
        0 <= hub < hub_total(setup.grid_size as int),
    ensures
        ({
            let n = setup.grid_size as int;
            weighted_point(
                force_response(motion.bodies, setup.joints, solution, hub),
                hub_center(),
            ) == hub_forces_of(solution, n)[hub].scaled(motion.bodies[hub].inverse_diagonal)
        }),
{
    let n = setup.grid_size as int;
    let inverse = motion.bodies[hub].inverse_diagonal;
    lemma_counts(n);
    lemma_force_on_hub(n, solution, joint_total(n), hub);
    lemma_gather_is_scatter(
        n,
        hub,
        |joint: int| solution[joint].negated().scaled(quarter()),
    );
    let pushed = hub_forces_of(solution, n)[hub].scaled(inverse);
    lemma_parts(pushed.x);
    lemma_parts(pushed.y);
    lemma_parts(pushed.z);
    lemma_take_nothing(pushed.x.times(quarter()));
    lemma_take_nothing(pushed.y.times(quarter()));
    lemma_take_nothing(pushed.z.times(quarter()));
}

/// No joint of a net pulls at a ball.
proof fn lemma_force_on_ball<S: Scalar>(n: int, multiplier: Seq<Vec3<S>>, count: int, ball: int)
    requires
        n >= 2,
        hub_total(n) + rod_total(n) <= usize::MAX,
        hub_total(n) + rod_total(n) <= ball,
        0 <= count <= joint_total(n),
    ensures
        accumulated_force(net_joints::<S>(n), multiplier, count, ball) == no_force::<S>(),
    decreases count,
{
    if count > 0 {
        lemma_counts(n);
        lemma_force_on_ball(n, multiplier, count - 1, ball);
        lemma_joint_is_neighbor(n, count - 1);
        assert(net_joints::<S>(n)[count - 1] == net_joint::<S>(n, count - 1));
    }
}

proof fn lemma_unmoved<S: Scalar>(point: Vec3<S>, inverse: S)
    requires
        exact::<S>(),
    ensures
        point.minus(Vec3::<S>::origin().scaled(inverse)) == point,
{
    lemma_zero(inverse);
    lemma_take_nothing(point.x);
    lemma_take_nothing(point.y);
    lemma_take_nothing(point.z);
}

/// In exact arithmetic moving hubs and rods by what they are moves a body as adding up the
/// pulls of joints between any points does.
pub proof fn lemma_generic_correction<S: Scalar>(
    setup: Setup<S>,
    motion: Motion<S>,
    multiplier: Seq<Vec3<S>>,
    number: int,
)
    requires
        exact::<S>(),
        setup.well_formed(),
        motion.well_formed(setup),
        multiplier.len() == joint_total(setup.grid_size as int),
        0 <= number < motion.bodies.len(),
    ensures
        ({
            let body = motion.bodies[number];
            body_with_multipliers(body, number, multiplier, setup.grid_size as int) == (
            if body.fixed {
                body
            } else {
                AffineBody {
                    positions: retracted(
                        body.positions,
                        force_response(motion.bodies, setup.joints, multiplier, number),
                    ),
                    ..body
                }
            })
        }),
{
    let n = setup.grid_size as int;
    let body = motion.bodies[number];
    let inverse = body.inverse_diagonal;
    lemma_counts(n);
    assert((body.kind, body.fixed) == layout(setup.scene, n, number));
    if number < hub_total(n) {
        lemma_force_on_hub(n, multiplier, joint_total(n), number);
        lemma_gather_is_scatter(
            n,
            number,
            |joint: int| multiplier[joint].negated().scaled(quarter()),
        );
    } else if number < hub_total(n) + rod_total(n) {
        let rod = number - hub_total(n);
        let start = multiplier[2 * rod];
        let end = multiplier[2 * rod + 1];
        lemma_force_on_rod(n, multiplier, joint_total(n), rod);
        lemma_rod_gives_way(start.x, end.x, inverse);
        lemma_rod_gives_way(start.y, end.y, inverse);
        lemma_rod_gives_way(start.z, end.z, inverse);
    } else {
        lemma_force_on_ball(n, multiplier, joint_total(n), number);
        lemma_unmoved(body.positions.p0, inverse);
        lemma_unmoved(body.positions.p1, inverse);
        lemma_unmoved(body.positions.p2, inverse);
        lemma_unmoved(body.positions.p3, inverse);
    }
}

proof fn lemma_joint_points<S: Scalar>(a: S, b: S, c: S, d: S)
    requires
        exact::<S>(),
    ensures
        zero::<S>().plus(a.times(half())).plus(b.times(half())).plus(c.times(zero())).plus(
            d.times(zero()),
        ) == a.times(half()).plus(b.times(half())),
        zero::<S>().plus(a.times(zero())).plus(b.times(zero())).plus(c.times(half())).plus(
            d.times(half()),
        ) == c.times(half()).plus(d.times(half())),
        zero::<S>().plus(a.times(quarter())) == a.times(quarter()),
{
    lemma_zero(a);
    lemma_zero(b);
    lemma_zero(c);
    lemma_zero(d);
    lemma_take_nothing(zero::<S>());
    lemma_take_nothing(a.times(half()));
    lemma_take_nothing(a.times(half()).plus(b.times(half())));
    lemma_take_nothing(c.times(half()));
    lemma_take_nothing(a.times(quarter()));
}

/// In exact arithmetic the points that the joints of rods and hubs hold are those that the
/// weights of their attachments give.
pub proof fn lemma_joint_point_of<S: Scalar>(body: AffineBody<S>)
    requires
        exact::<S>(),
    ensures
        rod_joint_endpoints(body.positions) == (
            point_of(body, rod_start()),
            point_of(body, rod_end()),
        ),
        hub_attachment_center(body.positions) == point_of(body, hub_center()),
{
    let p = body.positions;
    lemma_joint_points(p.p0.x, p.p1.x, p.p2.x, p.p3.x);
    lemma_joint_points(p.p0.y, p.p1.y, p.p2.y, p.p3.y);
    lemma_joint_points(p.p0.z, p.p1.z, p.p2.z, p.p3.z);
}

/// In exact arithmetic the residual of a rod end from the joint points of rod and hub is the
/// distance of the points that a joint holds together.
pub proof fn lemma_generic_residual<S: Scalar>(rod: AffineBody<S>, hub: AffineBody<S>)
    requires
        exact::<S>(),
    ensures
        rod_end_residual(rod, true, hub) == point_of(rod, rod_start()).minus(
            point_of(hub, hub_center()),
        ),
        rod_end_residual(rod, false, hub) == point_of(rod, rod_end()).minus(
            point_of(hub, hub_center()),
        ),
{
    lemma_joint_point_of(rod);
    lemma_joint_point_of(hub);
}

} // verus!
