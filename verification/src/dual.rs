//! The joint solve by its multipliers: residuals first, then one multiplier for each joint,
//! then the corrections that the multipliers ask for. Up to rounding it moves the bodies as
//! the direct solve does.

use crate::attachment::{attachment_position, point_of};
use crate::body::{
    hub_attachment_center, rod_joint_endpoints, weighted_point, AffineBody, ControlPoints, Weights,
};
use crate::gather::neighbor_sum;
use crate::grid::{
    horizontal_rod_count, hub_count, hub_total, joint_hub, joint_total, lemma_counts,
    lemma_hub_joints, lemma_index_row, lemma_row_index, rod_count, rod_total,
};
use crate::joints::{ends_corrected, filled, inverse_rod_weight, schur_factor, BallJoint};
use crate::scalar::{half, quarter, zero, Scalar};
use crate::vector::Vec3;
use vstd::prelude::*;

verus! {

/// What the solve by multipliers keeps besides the residuals.
pub struct DualScratch<S> {
    /// The multipliers of the joints.
    pub solution: Vec<Vec3<S>>,
    /// The hubs of the joints.
    pub joint_hub: Vec<usize>,
    /// How strongly each rod resists one of its joints.
    pub rod_inverse_weight: Vec<S>,
    /// The sum of that over the joints of each hub.
    pub hub_inverse_rod_weight_sum: Vec<S>,
    /// What couples the joints of each hub.
    pub hub_schur_factor: Vec<S>,
}

impl<S: Scalar> DualScratch<S> {
    /// Scratch space for joints and a number of hubs; all but the hubs of the joints is zero.
    pub fn new(joints: &[BallJoint<S>], hub_count: usize) -> (result: Self)
        ensures
            result.solution@ == Seq::new(joints@.len(), |i: int| Vec3::<S>::origin()),
            result.joint_hub@ == Seq::new(joints@.len(), |i: int| joints@[i].b.body),
            result.rod_inverse_weight@ == Seq::new(joints@.len() / 2, |i: int| zero::<S>()),
            result.hub_inverse_rod_weight_sum@ == Seq::new(hub_count as nat, |i: int| zero::<S>()),
            result.hub_schur_factor@ == Seq::new(hub_count as nat, |i: int| zero::<S>()),
    {
        let count: usize = joints.len();
        let mut joint_hubs: Vec<usize> = Vec::with_capacity(count);
        let mut index: usize = 0;
        while index < count
            invariant
                index <= count,
                count == joints@.len(),
                joint_hubs@ == Seq::new(index as nat, |i: int| joints@[i].b.body),
            decreases count - index,
        {
            joint_hubs.push(joints[index].b.body);
            index = index + 1;
        }
        DualScratch {
            solution: filled(Vec3::zero(), count),
            joint_hub: joint_hubs,
            rod_inverse_weight: filled(zero(), count / 2),
            hub_inverse_rod_weight_sum: filled(zero(), hub_count),
            hub_schur_factor: filled(zero(), hub_count),
        }
    }
}

/// The resistance of the rod that a pair of joints holds.
pub open spec fn pair_rod_weight<S: Scalar>(
    bodies: Seq<AffineBody<S>>,
    joints: Seq<BallJoint<S>>,
    pair: int,
) -> S {
    inverse_rod_weight(bodies[joints[2 * pair].a.body as int])
}

/// The resistances at a hub added up over the first `count` joints, starting from zero. Both
/// joints of a pair count with the rod of the first.
pub open spec fn rod_weight_sum<S: Scalar>(
    bodies: Seq<AffineBody<S>>,
    joints: Seq<BallJoint<S>>,
    count: int,
    hub: int,
) -> S
    decreases count,
{
    if count <= 0 {
        zero()
    } else {
        let sum = rod_weight_sum(bodies, joints, count - 1, hub);
        if joints[count - 1].b.body == hub {
            sum.plus(pair_rod_weight(bodies, joints, (count - 1) / 2))
        } else {
            sum
        }
    }
}

/// Computes the resistances of all rods and what couples the joints of each hub.
pub fn prepare_direct_joint_solver_reference<S: Scalar>(
    bodies: &[AffineBody<S>],
    joints: &[BallJoint<S>],
    scratch: &mut DualScratch<S>,
)
    requires
        old(scratch).rod_inverse_weight@.len() == joints@.len() / 2,
        old(scratch).hub_inverse_rod_weight_sum@.len() == old(scratch).hub_schur_factor@.len(),
        old(scratch).hub_schur_factor@.len() <= bodies@.len(),
        forall|i: int|
            0 <= i < joints@.len() - joints@.len() % 2 ==> (#[trigger] joints@[i]).a.body
                < bodies@.len() && joints@[i].b.body < old(scratch).hub_schur_factor@.len(),
    ensures
        final(scratch).solution == old(scratch).solution,
        final(scratch).joint_hub == old(scratch).joint_hub,
        final(scratch).rod_inverse_weight@ == Seq::new(
            joints@.len() / 2,
            |i: int| pair_rod_weight(bodies@, joints@, i),
        ),
        final(scratch).hub_inverse_rod_weight_sum@ == Seq::new(
            old(scratch).hub_schur_factor@.len(),
            |hub: int|
                rod_weight_sum(bodies@, joints@, joints@.len() - joints@.len() % 2, hub),
        ),
        final(scratch).hub_schur_factor@ == Seq::new(
            old(scratch).hub_schur_factor@.len(),
            |hub: int|
                schur_factor(
                    bodies@[hub],
                    rod_weight_sum(bodies@, joints@, joints@.len() - joints@.len() % 2, hub),
                ),
        ),
{
    let rods: usize = joints.len() / 2;
    let hubs: usize = scratch.hub_schur_factor.len();
    let ghost paired = joints@.len() - joints@.len() % 2;
    let mut weights: Vec<S> = Vec::with_capacity(rods);
    let mut sums: Vec<S> = filled(zero(), hubs);
    let mut rod: usize = 0;
    while rod < rods
        invariant
            rod <= rods,
            rods == joints@.len() / 2,
            paired == 2 * rods,
            paired == joints@.len() - joints@.len() % 2,
            hubs == old(scratch).hub_schur_factor@.len(),
            sums@.len() == hubs,
            forall|i: int|
                0 <= i < joints@.len() - joints@.len() % 2 ==> (#[trigger] joints@[i]).a.body
                    < bodies@.len() && joints@[i].b.body < old(scratch).hub_schur_factor@.len(),
            weights@ == Seq::new(rod as nat, |i: int| pair_rod_weight(bodies@, joints@, i)),
            forall|hub: int|
                0 <= hub < hubs ==> (#[trigger] sums@[hub]) == rod_weight_sum(
                    bodies@,
                    joints@,
                    2 * rod as int,
                    hub,
                ),
        decreases rods - rod,
    {
        proof {
            reveal_with_fuel(rod_weight_sum, 3);
        }
        assert(joints@.len() == joints.len());
        let first = joints[2 * rod];
        let second = joints[2 * rod + 1];
        let weight = inverse_rod_weight(bodies[first.a.body]);
        weights.push(weight);
        let start_sum = sums[first.b.body].add(weight);
        sums[first.b.body] = start_sum;
        let end_sum = sums[second.b.body].add(weight);
        sums[second.b.body] = end_sum;
        rod = rod + 1;
    }
    let mut factors: Vec<S> = Vec::with_capacity(hubs);
    let mut hub: usize = 0;
    while hub < hubs
        invariant
            hub <= hubs,
            sums@.len() == hubs,
            hubs <= bodies@.len(),
            forall|h: int|
                0 <= h < hubs ==> (#[trigger] sums@[h]) == rod_weight_sum(
                    bodies@,
                    joints@,
                    paired,
                    h,
                ),
            factors@ == Seq::new(
                hub as nat,
                |h: int| schur_factor(bodies@[h], rod_weight_sum(bodies@, joints@, paired, h)),
            ),
        decreases hubs - hub,
    {
        factors.push(schur_factor(bodies[hub], sums[hub]));
        hub = hub + 1;
    }
    scratch.rod_inverse_weight = weights;
    scratch.hub_inverse_rod_weight_sum = sums;
    scratch.hub_schur_factor = factors;
}

/// The lesser of two lengths: how far two lists go side by side.
pub open spec fn common_len(first: nat, second: nat) -> nat {
    if first < second {
        first
    } else {
        second
    }
}

/// How many rods get residuals: as many as there are of them, of pairs of joints and of pairs
/// of places for the residuals.
pub open spec fn residual_pairs(rods: nat, joints: nat, residuals: nat) -> nat {
    common_len(rods, common_len(joints / 2, residuals / 2))
}

/// The residuals of the rods of a slice, each with its pair of joints. Places without a rod or
/// a pair of joints keep what they hold.
pub fn compute_rod_residuals<S: Scalar>(
    rods: &[AffineBody<S>],
    joints: &[BallJoint<S>],
    bodies: &[AffineBody<S>],
    residuals: &mut [Vec3<S>],
)
    requires
        forall|i: int|
            0 <= i < 2 * residual_pairs(rods@.len(), joints@.len(), old(residuals)@.len()) ==> (
            #[trigger] joints@[i]).b.body < bodies@.len(),
    ensures
        final(residuals)@.len() == old(residuals)@.len(),
        forall|i: int|
            0 <= i < old(residuals)@.len() ==> (#[trigger] final(residuals)@[i]) == (if i < 2
                * residual_pairs(rods@.len(), joints@.len(), old(residuals)@.len()) {
                rod_end_residual(rods@[i / 2], i % 2 == 0, bodies@[joints@[i].b.body as int])
            } else {
                old(residuals)@[i]
            }),
{
    assert(residuals@.len() == residuals.len());
    let joint_pairs: usize = joints.len() / 2;
    let places: usize = residuals.len() / 2;
    let pairs: usize = if joint_pairs < places {
        joint_pairs
    } else {
        places
    };
    let count: usize = if rods.len() < pairs {
        rods.len()
    } else {
        pairs
    };
    let ghost before = residuals@;
    let mut index: usize = 0;
    while index < count
        invariant
            index <= count,
            count <= rods@.len(),
            2 * count <= joints@.len(),
            2 * count <= residuals@.len() <= usize::MAX,
            residuals@.len() == before.len(),
            forall|i: int| 0 <= i < 2 * count ==> (#[trigger] joints@[i]).b.body < bodies@.len(),
            forall|i: int|
                0 <= i < before.len() ==> (#[trigger] residuals@[i]) == (if i < 2 * index {
                    rod_end_residual(
                        rods@[i / 2],
                        i % 2 == 0,
                        bodies@[joints@[i].b.body as int],
                    )
                } else {
                    before[i]
                }),
        decreases count - index,
    {
        let (start, end) = rod_joint_endpoints(rods[index].positions);
        let start_center = hub_attachment_center(bodies[joints[2 * index].b.body].positions);
        let end_center = hub_attachment_center(bodies[joints[2 * index + 1].b.body].positions);
        residuals[2 * index] = start.sub(start_center);
        residuals[2 * index + 1] = end.sub(end_center);
        index = index + 1;
    }
}

/// How far an end of a rod is from the centre of a hub.
pub open spec fn rod_end_residual<S: Scalar>(
    rod: AffineBody<S>,
    at_start: bool,
    hub: AffineBody<S>,
) -> Vec3<S> {
    let ends = rod_joint_endpoints(rod.positions);
    (if at_start {
        ends.0
    } else {
        ends.1
    }).minus(hub_attachment_center(hub.positions))
}

/// The residuals of all joints from the bodies they hold; the rods follow `hub_count` hubs.
/// Places without a pair of joints keep what they hold.
pub fn compute_joint_residuals<S: Scalar>(
    bodies: &[AffineBody<S>],
    joints: &[BallJoint<S>],
    residuals: &mut [Vec3<S>],
    hub_count: usize,
)
    requires
        hub_count + joints@.len() / 2 <= bodies@.len(),
        forall|i: int|
            0 <= i < 2 * residual_pairs(
                joints@.len() / 2,
                joints@.len(),
                old(residuals)@.len(),
            ) ==> (#[trigger] joints@[i]).b.body < bodies@.len(),
    ensures
        final(residuals)@.len() == old(residuals)@.len(),
        forall|i: int|
            0 <= i < old(residuals)@.len() ==> (#[trigger] final(residuals)@[i]) == (if i < 2
                * residual_pairs(joints@.len() / 2, joints@.len(), old(residuals)@.len()) {
                rod_end_residual(
                    bodies@[hub_count + i / 2],
                    i % 2 == 0,
                    bodies@[joints@[i].b.body as int],
                )
            } else {
                old(residuals)@[i]
            }),
{
    let rods_total: usize = joints.len() / 2;
    assert(bodies@.len() == bodies.len());
    let rods = &bodies[hub_count..hub_count + rods_total];
    compute_rod_residuals(rods, joints, bodies, residuals);
}

/// Turns rod ends into residuals by the hub centres. Rod ends without a joint stay.
pub fn finalize_joint_residuals<S: Scalar>(
    endpoint_or_residual: &mut [Vec3<S>],
    hub_centers: &[Vec3<S>],
    joint_hubs: &[usize],
)
    requires
        forall|i: int|
            0 <= i < common_len(old(endpoint_or_residual)@.len(), joint_hubs@.len()) ==> (
            #[trigger] joint_hubs@[i]) < hub_centers@.len(),
    ensures
        final(endpoint_or_residual)@ == Seq::new(
            old(endpoint_or_residual)@.len(),
            |i: int|
                if i < joint_hubs@.len() {
                    old(endpoint_or_residual)@[i].minus(hub_centers@[joint_hubs@[i] as int])
                } else {
                    old(endpoint_or_residual)@[i]
                },
        ),
{
    assert(endpoint_or_residual@.len() == endpoint_or_residual.len());
    let count: usize = if endpoint_or_residual.len() < joint_hubs.len() {
        endpoint_or_residual.len()
    } else {
        joint_hubs.len()
    };
    let ghost before = endpoint_or_residual@;
    let mut index: usize = 0;
    while index < count
        invariant
            index <= count,
            count == common_len(before.len(), joint_hubs@.len()),
            endpoint_or_residual@.len() == before.len(),
            forall|i: int| 0 <= i < count ==> (#[trigger] joint_hubs@[i]) < hub_centers@.len(),
            forall|i: int|
                0 <= i < before.len() ==> (#[trigger] endpoint_or_residual@[i]) == (if i < index {
                    before[i].minus(hub_centers@[joint_hubs@[i] as int])
                } else {
                    before[i]
                }),
        decreases count - index,
    {
        let residual = endpoint_or_residual[index].sub(hub_centers[joint_hubs[index]]);
        endpoint_or_residual[index] = residual;
        index = index + 1;
    }
}

/// The residuals of joints between any points. Places without a joint keep what they hold.
pub fn compute_joint_residuals_generic<S: Scalar>(
    bodies: &[AffineBody<S>],
    joints: &[BallJoint<S>],
    residuals: &mut [Vec3<S>],
)
    requires
        forall|i: int|
            0 <= i < common_len(old(residuals)@.len(), joints@.len()) ==> (
            #[trigger] joints@[i]).a.body < bodies@.len() && joints@[i].b.body < bodies@.len(),
    ensures
        final(residuals)@ == Seq::new(
            old(residuals)@.len(),
            |i: int|
                if i < joints@.len() {
                    point_of(bodies@[joints@[i].a.body as int], joints@[i].a.weights).minus(
                        point_of(bodies@[joints@[i].b.body as int], joints@[i].b.weights),
                    )
                } else {
                    old(residuals)@[i]
                },
        ),
{
    assert(residuals@.len() == residuals.len());
    let count: usize = if residuals.len() < joints.len() {
        residuals.len()
    } else {
        joints.len()
    };
    let ghost before = residuals@;
    let mut index: usize = 0;
    while index < count
        invariant
            index <= count,
            count == common_len(before.len(), joints@.len()),
            residuals@.len() == before.len(),
            forall|i: int|
                0 <= i < count ==> (#[trigger] joints@[i]).a.body < bodies@.len()
                    && joints@[i].b.body < bodies@.len(),
            forall|i: int|
                0 <= i < before.len() ==> (#[trigger] residuals@[i]) == (if i < index {
                    point_of(bodies@[joints@[i].a.body as int], joints@[i].a.weights).minus(
                        point_of(bodies@[joints@[i].b.body as int], joints@[i].b.weights),
                    )
                } else {
                    before[i]
                }),
        decreases count - index,
    {
        let joint = joints[index];
        residuals[index] = attachment_position(bodies, joint.a).sub(
            attachment_position(bodies, joint.b),
        );
        index = index + 1;
    }
}

/// A sum over the joints of a hub depends on its terms alone.
pub proof fn lemma_neighbor_sum_terms<S: Scalar>(
    n: int,
    hub: int,
    first: spec_fn(int) -> Vec3<S>,
    second: spec_fn(int) -> Vec3<S>,
)
    requires
        n >= 2,
        0 <= hub < hub_total(n),
        forall|joint: int| 0 <= joint < joint_total(n) ==> #[trigger] first(joint) == second(joint),
    ensures
        neighbor_sum(n, hub, first) == neighbor_sum(n, hub, second),
{
    lemma_counts(n);
    lemma_index_row(n, n, hub);
    lemma_hub_joints(n, hub / n, hub % n);
}

/// The sum of terms over the joints of a hub.
pub fn sum_neighbors<S: Scalar>(
    terms: &[Vec3<S>],
    grid_size: usize,
    row: usize,
    column: usize,
) -> (result: Vec3<S>)
    requires
        grid_size >= 2,
        row < grid_size,
        column < grid_size,
        terms@.len() == joint_total(grid_size as int),
    ensures
        result == neighbor_sum(
            grid_size as int,
            row * grid_size + column,
            |joint: int| terms@[joint],
        ),
{
    proof {
        let n = grid_size as int;
        let r = row as int;
        let c = column as int;
        assert(terms@.len() == terms.len());
        lemma_counts(n);
        lemma_row_index(n, n, r, c);
        lemma_hub_joints(n, r, c);
        assert((r - 1) * n == r * n - n) by (nonlinear_arith);
        assert(0 <= r * (n - 1) && r * (n - 1) + (n - 1) <= n * (n - 1)) by (nonlinear_arith)
            requires
                0 <= r,
                r + 1 <= n,
                n >= 2,
        ;
    }
    let horizontal_rods: usize = horizontal_rod_count(grid_size);
    let rods_before: usize = row * (grid_size - 1);
    let hub: usize = row * grid_size + column;
    let mut sum = Vec3::zero();
    if column > 0 {
        sum = sum.add(terms[2 * (rods_before + column - 1) + 1]);
    }
    if column + 1 < grid_size {
        sum = sum.add(terms[2 * (rods_before + column)]);
    }
    if row > 0 {
        sum = sum.add(terms[2 * (horizontal_rods + hub - grid_size) + 1]);
    }
    if row + 1 < grid_size {
        sum = sum.add(terms[2 * (horizontal_rods + hub)]);
    }
    sum
}

/// The sums of terms over the joints of all hubs.
pub open spec fn neighbor_sums<S: Scalar>(n: int, term: spec_fn(int) -> Vec3<S>) -> Seq<Vec3<S>> {
    Seq::new(hub_total(n) as nat, |hub: int| neighbor_sum(n, hub, term))
}

fn sum_all_neighbors<S: Scalar>(terms: &[Vec3<S>], sums: &mut [Vec3<S>], grid_size: usize)
    requires
        grid_size >= 2,
        terms@.len() == joint_total(grid_size as int),
        old(sums)@.len() == hub_total(grid_size as int),
    ensures
        final(sums)@ == neighbor_sums(grid_size as int, |joint: int| terms@[joint]),
{
    let ghost n = grid_size as int;
    let mut row: usize = 0;
    let mut column: usize = 0;
    let mut hub: usize = 0;
    assert(sums@.len() == sums.len());
    while row < grid_size
        invariant
            row <= grid_size,
            column < grid_size,
            row == grid_size ==> column == 0,
            grid_size >= 2,
            n == grid_size,
            hub == row * n + column,
            terms@.len() == joint_total(n),
            sums@.len() == hub_total(n),
            hub_total(n) <= usize::MAX,
            forall|h: int|
                0 <= h < hub ==> (#[trigger] sums@[h]) == neighbor_sum(
                    n,
                    h,
                    |joint: int| terms@[joint],
                ),
        decreases grid_size - row, grid_size - column,
    {
        proof {
            lemma_row_index(n, n, row as int, column as int);
            assert((row + 1) * n == row * n + n) by (nonlinear_arith);
        }
        sums[hub] = sum_neighbors(terms, grid_size, row, column);
        hub = hub + 1;
        if column + 1 < grid_size {
            column = column + 1;
        } else {
            column = 0;
            row = row + 1;
        }
    }
}

/// The multiplier of a joint: its residual less what the other joints of its hub take of it,
/// weighted by its rod.
pub open spec fn joint_multiplier<S: Scalar>(
    residuals: Seq<Vec3<S>>,
    hub_sums: Seq<Vec3<S>>,
    rod_weights: Seq<S>,
    hub_factors: Seq<S>,
    joint_hubs: Seq<usize>,
    joint: int,
) -> Vec3<S> {
    let hub = joint_hubs[joint] as int;
    residuals[joint].minus(hub_sums[hub].scaled(hub_factors[hub])).scaled(rod_weights[joint / 2])
}

/// Solves for the multipliers of all joints. The weighted residual sums of the hubs go to
/// `hub_weighted_residual`.
pub fn solve_dual_direct<S: Scalar>(
    residuals: &[Vec3<S>],
    hub_weighted_residual: &mut [Vec3<S>],
    scratch: &mut DualScratch<S>,
    grid_size: usize,
)
    requires
        grid_size >= 2,
        residuals@.len() == joint_total(grid_size as int),
        old(hub_weighted_residual)@.len() == hub_total(grid_size as int),
        old(scratch).solution@.len() == joint_total(grid_size as int),
        old(scratch).joint_hub@.len() == joint_total(grid_size as int),
        old(scratch).rod_inverse_weight@.len() == rod_total(grid_size as int),
        old(scratch).hub_schur_factor@.len() == hub_total(grid_size as int),
        forall|i: int|
            0 <= i < joint_total(grid_size as int) ==> (#[trigger] old(scratch).joint_hub@[i])
                < hub_total(grid_size as int),
    ensures
        final(scratch).joint_hub == old(scratch).joint_hub,
        final(scratch).rod_inverse_weight == old(scratch).rod_inverse_weight,
        final(scratch).hub_inverse_rod_weight_sum == old(scratch).hub_inverse_rod_weight_sum,
        final(scratch).hub_schur_factor == old(scratch).hub_schur_factor,
        final(hub_weighted_residual)@ == neighbor_sums(
            grid_size as int,
            |joint: int| residuals@[joint].scaled(old(scratch).rod_inverse_weight@[joint / 2]),
        ),
        final(scratch).solution@ == Seq::new(
            joint_total(grid_size as int) as nat,
            |joint: int|
                joint_multiplier(
                    residuals@,
                    final(hub_weighted_residual)@,
                    old(scratch).rod_inverse_weight@,
                    old(scratch).hub_schur_factor@,
                    old(scratch).joint_hub@,
                    joint,
                ),
        ),
{
    let ghost n = grid_size as int;
    let ghost weights = scratch.rod_inverse_weight@;
    let count: usize = residuals.len();
    let mut terms: Vec<Vec3<S>> = Vec::with_capacity(count);
    let mut joint: usize = 0;
    while joint < count
        invariant
            joint <= count,
            count == residuals@.len(),
            count == joint_total(n),
            weights == scratch.rod_inverse_weight@,
            weights.len() == rod_total(n),
            terms@ == Seq::new(
                joint as nat,
                |j: int| residuals@[j].scaled(weights[j / 2]),
            ),
        decreases count - joint,
    {
        terms.push(residuals[joint].scale(scratch.rod_inverse_weight[joint / 2]));
        joint = joint + 1;
    }
    sum_all_neighbors(terms.as_slice(), hub_weighted_residual, grid_size);
    proof {
        assert(hub_weighted_residual@ =~= neighbor_sums(
            n,
            |joint: int| residuals@[joint].scaled(weights[joint / 2]),
        )) by {
            assert forall|hub: int| 0 <= hub < hub_total(n) implies hub_weighted_residual@[hub]
                == neighbor_sums(
                n,
                |joint: int| residuals@[joint].scaled(weights[joint / 2]),
            )[hub] by {
                lemma_neighbor_sum_terms(
                    n,
                    hub,
                    |joint: int| terms@[joint],
                    |joint: int| residuals@[joint].scaled(weights[joint / 2]),
                );
                let here = neighbor_sum(n, hub, |joint: int| terms@[joint]);
                assert(hub_weighted_residual@[hub] == here);
            }
        }
    }
    let mut solution: Vec<Vec3<S>> = Vec::with_capacity(count);
    let mut index: usize = 0;
    while index < count
        invariant
            index <= count,
            count == residuals@.len(),
            count == joint_total(n),
            *scratch == *old(scratch),
            scratch.rod_inverse_weight@.len() == rod_total(n),
            scratch.hub_schur_factor@.len() == hub_total(n),
            scratch.joint_hub@.len() == joint_total(n),
            hub_weighted_residual@.len() == hub_total(n),
            forall|i: int|
                0 <= i < joint_total(n) ==> (#[trigger] old(scratch).joint_hub@[i]) < hub_total(n),
            solution@ == Seq::new(
                index as nat,
                |j: int|
                    joint_multiplier(
                        residuals@,
                        hub_weighted_residual@,
                        old(scratch).rod_inverse_weight@,
                        old(scratch).hub_schur_factor@,
                        old(scratch).joint_hub@,
                        j,
                    ),
            ),
        decreases count - index,
    {
        let hub: usize = scratch.joint_hub[index];
        let taken = hub_weighted_residual[hub].scale(scratch.hub_schur_factor[hub]);
        let multiplier = residuals[index].sub(taken).scale(scratch.rod_inverse_weight[index / 2]);
        solution.push(multiplier);
        index = index + 1;
    }
    scratch.solution = solution;
}

/// The force that the joints of each hub put on each of its points.
pub open spec fn hub_forces_of<S: Scalar>(multipliers: Seq<Vec3<S>>, n: int) -> Seq<Vec3<S>> {
    neighbor_sums(n, |joint: int| multipliers[joint].negated().scaled(quarter()))
}

/// A rod after the correction that the multipliers of its joints ask for.
#[verifier::allow_in_spec]
pub fn rod_with_multipliers<S: Scalar>(
    rod: AffineBody<S>,
    start: Vec3<S>,
    end: Vec3<S>,
) -> (result: AffineBody<S>)
    returns
        (AffineBody::<S> {
            positions: ends_corrected(
                rod.positions,
                start.scaled(half()).scaled(rod.inverse_diagonal),
                end.scaled(half()).scaled(rod.inverse_diagonal),
            ),
            ..rod
        }),
{
    AffineBody {
        positions: ends_corrected(
            rod.positions,
            start.scale(half()).scale(rod.inverse_diagonal),
            end.scale(half()).scale(rod.inverse_diagonal),
        ),
        ..rod
    }
}

/// A hub after the correction that the force on its points asks for; a fixed one stays.
#[verifier::allow_in_spec]
pub fn hub_with_force<S: Scalar>(hub: AffineBody<S>, force: Vec3<S>) -> (result: AffineBody<S>)
    returns
        (if hub.fixed {
            hub
        } else {
            let step = force.scaled(hub.inverse_diagonal);
            AffineBody::<S> { positions: ends_corrected(hub.positions, step, step), ..hub }
        }),
{
    if hub.fixed {
        return hub;
    }
    let step = force.scale(hub.inverse_diagonal);
    AffineBody { positions: ends_corrected(hub.positions, step, step), ..hub }
}

/// What the multipliers make of the body with the given number; balls stay.
pub open spec fn body_with_multipliers<S: Scalar>(
    body: AffineBody<S>,
    number: int,
    multipliers: Seq<Vec3<S>>,
    n: int,
) -> AffineBody<S> {
    if number < hub_total(n) {
        hub_with_force(body, hub_forces_of(multipliers, n)[number])
    } else if number < hub_total(n) + rod_total(n) {
        let rod = number - hub_total(n);
        rod_with_multipliers(body, multipliers[2 * rod], multipliers[2 * rod + 1])
    } else {
        body
    }
}

/// Moves the bodies of a net as the multipliers of its joints ask for. The forces on the hubs
/// go to the start of `hub_forces`, one for each hub.
pub fn apply_joint_correction<S: Scalar>(
    bodies: &mut [AffineBody<S>],
    multipliers: &[Vec3<S>],
    hub_forces: &mut [Vec3<S>],
    grid_size: usize,
)
    requires
        grid_size >= 2,
        hub_total(grid_size as int) + rod_total(grid_size as int) <= old(bodies)@.len(),
        multipliers@.len() == joint_total(grid_size as int),
        hub_total(grid_size as int) <= old(hub_forces)@.len(),
    ensures
        final(hub_forces)@ == Seq::new(
            old(hub_forces)@.len(),
            |h: int|
                if h < hub_total(grid_size as int) {
                    hub_forces_of(multipliers@, grid_size as int)[h]
                } else {
                    old(hub_forces)@[h]
                },
        ),
        final(bodies)@ == Seq::new(
            old(bodies)@.len(),
            |i: int|
                body_with_multipliers(old(bodies)@[i], i, multipliers@, grid_size as int),
        ),
{
    let ghost n = grid_size as int;
    let ghost before = bodies@;
    assert(bodies@.len() == bodies.len());
    proof {
        lemma_counts(n);
    }
    let joints_total: usize = multipliers.len();
    let mut terms: Vec<Vec3<S>> = Vec::with_capacity(joints_total);
    let mut joint: usize = 0;
    while joint < joints_total
        invariant
            joint <= joints_total,
            joints_total == multipliers@.len(),
            terms@ == Seq::new(
                joint as nat,
                |j: int| multipliers@[j].negated().scaled(quarter()),
            ),
        decreases joints_total - joint,
    {
        terms.push(multipliers[joint].neg().scale(quarter()));
        joint = joint + 1;
    }
    let hubs_total: usize = hub_count(grid_size);
    let rods_total: usize = rod_count(grid_size);
    let (forces, _) = hub_forces.split_at_mut(hubs_total);
    sum_all_neighbors(terms.as_slice(), forces, grid_size);
    proof {
        assert forall|hub: int| 0 <= hub < hub_total(n) implies forces@[hub] == hub_forces_of(
            multipliers@,
            n,
        )[hub] by {
            lemma_neighbor_sum_terms(
                n,
                hub,
                |joint: int| terms@[joint],
                |joint: int| multipliers@[joint].negated().scaled(quarter()),
            );
            let here = neighbor_sum(n, hub, |joint: int| terms@[joint]);
            assert(forces@[hub] == here);
        }
        assert(forces@ =~= hub_forces_of(multipliers@, n));
    }
    let mut rod: usize = 0;
    while rod < rods_total
        invariant
            rod <= rods_total,
            n == grid_size,
            hubs_total == hub_total(n),
            rods_total == rod_total(n),
            hubs_total + rods_total <= bodies@.len() <= usize::MAX,
            bodies@.len() == before.len(),
            multipliers@.len() == 2 * rods_total,
            multipliers@.len() <= usize::MAX,
            forall|i: int|
                0 <= i < before.len() ==> (#[trigger] bodies@[i]) == (if hubs_total <= i
                    < hubs_total + rod {
                    body_with_multipliers(before[i], i, multipliers@, n)
                } else {
                    before[i]
                }),
        decreases rods_total - rod,
    {
        let corrected = rod_with_multipliers(
            bodies[hubs_total + rod],
            multipliers[2 * rod],
            multipliers[2 * rod + 1],
        );
        bodies[hubs_total + rod] = corrected;
        rod = rod + 1;
    }
    let mut hub: usize = 0;
    while hub < hubs_total
        invariant
            hub <= hubs_total,
            n == grid_size,
            hubs_total == hub_total(n),
            rods_total == rod_total(n),
            hubs_total + rods_total <= bodies@.len(),
            bodies@.len() == before.len(),
            forces@ == hub_forces_of(multipliers@, n),
            forces@.len() == hubs_total,
            forall|i: int|
                0 <= i < before.len() ==> (#[trigger] bodies@[i]) == (if i < hub || hubs_total
                    <= i < hubs_total + rods_total {
                    body_with_multipliers(before[i], i, multipliers@, n)
                } else {
                    before[i]
                }),
        decreases hubs_total - hub,
    {
        let corrected = hub_with_force(bodies[hub], forces[hub]);
        bodies[hub] = corrected;
        hub = hub + 1;
    }
}

/// Points with a value added to each by its weight.
#[verifier::allow_in_spec]
pub fn accumulate_attachment<S: Scalar>(
    points: ControlPoints<S>,
    weights: Weights<S>,
    value: Vec3<S>,
) -> (result: ControlPoints<S>)
    returns
        (ControlPoints::<S> {
            p0: points.p0.plus(value.scaled(weights.w0)),
            p1: points.p1.plus(value.scaled(weights.w1)),
            p2: points.p2.plus(value.scaled(weights.w2)),
            p3: points.p3.plus(value.scaled(weights.w3)),
        }),
{
    ControlPoints {
        p0: points.p0.add(value.scale(weights.w0)),
        p1: points.p1.add(value.scale(weights.w1)),
        p2: points.p2.add(value.scale(weights.w2)),
        p3: points.p3.add(value.scale(weights.w3)),
    }
}

/// Four points at zero.
#[verifier::allow_in_spec]
pub fn no_force<S: Scalar>() -> (result: ControlPoints<S>)
    returns
        (ControlPoints::<S> {
            p0: Vec3::origin(),
            p1: Vec3::origin(),
            p2: Vec3::origin(),
            p3: Vec3::origin(),
        }),
{
    ControlPoints { p0: Vec3::zero(), p1: Vec3::zero(), p2: Vec3::zero(), p3: Vec3::zero() }
}

/// The force that the first `count` joints put on the points of a body.
pub open spec fn accumulated_force<S: Scalar>(
    joints: Seq<BallJoint<S>>,
    multipliers: Seq<Vec3<S>>,
    count: int,
    body: int,
) -> ControlPoints<S>
    decreases count,
{
    if count <= 0 {
        no_force()
    } else {
        let joint = joints[count - 1];
        let multiplier = multipliers[count - 1];
        let before = accumulated_force(joints, multipliers, count - 1, body);
        let pulled = if joint.a.body == body {
            accumulate_attachment(before, joint.a.weights, multiplier)
        } else {
            before
        };
        if joint.b.body == body {
            accumulate_attachment(pulled, joint.b.weights, multiplier.negated())
        } else {
            pulled
        }
    }
}

/// The force that all joints with a multiplier put on the points of a body.
pub open spec fn joint_force<S: Scalar>(
    joints: Seq<BallJoint<S>>,
    multipliers: Seq<Vec3<S>>,
    body: int,
) -> ControlPoints<S> {
    accumulated_force(
        joints,
        multipliers,
        common_len(joints.len(), multipliers.len()) as int,
        body,
    )
}

fn accumulate_forces<S: Scalar>(
    joints: &[BallJoint<S>],
    multipliers: &[Vec3<S>],
    body_count: usize,
) -> (forces: Vec<ControlPoints<S>>)
    requires
        forall|i: int|
            0 <= i < common_len(joints@.len(), multipliers@.len()) ==> (
            #[trigger] joints@[i]).a.body < body_count && joints@[i].b.body < body_count,
    ensures
        forces@ == Seq::new(
            body_count as nat,
            |body: int| joint_force(joints@, multipliers@, body),
        ),
{
    let count: usize = if joints.len() < multipliers.len() {
        joints.len()
    } else {
        multipliers.len()
    };
    let mut forces: Vec<ControlPoints<S>> = filled(no_force(), body_count);
    let mut index: usize = 0;
    while index < count
        invariant
            index <= count,
            count == common_len(joints@.len(), multipliers@.len()),
            forces@.len() == body_count,
            forall|i: int|
                0 <= i < count ==> (#[trigger] joints@[i]).a.body < body_count
                    && joints@[i].b.body < body_count,
            forall|body: int|
                0 <= body < body_count ==> (#[trigger] forces@[body]) == accumulated_force(
                    joints@,
                    multipliers@,
                    index as int,
                    body,
                ),
        decreases count - index,
    {
        let joint = joints[index];
        let multiplier = multipliers[index];
        let pulled = accumulate_attachment(forces[joint.a.body], joint.a.weights, multiplier);
        forces[joint.a.body] = pulled;
        let pushed = accumulate_attachment(forces[joint.b.body], joint.b.weights, multiplier.neg());
        forces[joint.b.body] = pushed;
        index = index + 1;
    }
    forces
}

/// Four points scaled.
#[verifier::allow_in_spec]
pub fn scaled_points<S: Scalar>(points: ControlPoints<S>, factor: S) -> (result: ControlPoints<S>)
    returns
        (ControlPoints::<S> {
            p0: points.p0.scaled(factor),
            p1: points.p1.scaled(factor),
            p2: points.p2.scaled(factor),
            p3: points.p3.scaled(factor),
        }),
{
    ControlPoints {
        p0: points.p0.scale(factor),
        p1: points.p1.scale(factor),
        p2: points.p2.scale(factor),
        p3: points.p3.scale(factor),
    }
}

/// How far the points of a body give way to the force of all joints.
pub open spec fn force_response<S: Scalar>(
    bodies: Seq<AffineBody<S>>,
    joints: Seq<BallJoint<S>>,
    multipliers: Seq<Vec3<S>>,
    body: int,
) -> ControlPoints<S> {
    scaled_points(joint_force(joints, multipliers, body), bodies[body].inverse_diagonal)
}

/// What multipliers do to the residuals of their joints: the matrix that the solve inverts.
pub fn apply_dual_matrix<S: Scalar>(
    bodies: &[AffineBody<S>],
    joints: &[BallJoint<S>],
    input: &[Vec3<S>],
    output: &mut [Vec3<S>],
)
    requires
        joints@.len() <= old(output)@.len(),
        forall|i: int|
            0 <= i < joints@.len() ==> (#[trigger] joints@[i]).a.body < bodies@.len()
                && joints@[i].b.body < bodies@.len(),
    ensures
        final(output)@ == Seq::new(
            old(output)@.len(),
            |i: int|
                if i < joints@.len() {
                    weighted_point(
                        force_response(bodies@, joints@, input@, joints@[i].a.body as int),
                        joints@[i].a.weights,
                    ).minus(
                        weighted_point(
                            force_response(bodies@, joints@, input@, joints@[i].b.body as int),
                            joints@[i].b.weights,
                        ),
                    )
                } else {
                    old(output)@[i]
                },
        ),
{
    assert(output@.len() == output.len());
    let forces = accumulate_forces(joints, input, bodies.len());
    let count: usize = joints.len();
    let mut index: usize = 0;
    while index < count
        invariant
            index <= count,
            count == joints@.len(),
            output@.len() == old(output)@.len(),
            count <= output@.len(),
            forces@ == Seq::new(
                bodies@.len(),
                |body: int| joint_force(joints@, input@, body),
            ),
            forall|i: int|
                0 <= i < joints@.len() ==> (#[trigger] joints@[i]).a.body < bodies@.len()
                    && joints@[i].b.body < bodies@.len(),
            forall|i: int|
                0 <= i < output@.len() ==> (#[trigger] output@[i]) == (if i < index {
                    weighted_point(
                        force_response(bodies@, joints@, input@, joints@[i].a.body as int),
                        joints@[i].a.weights,
                    ).minus(
                        weighted_point(
                            force_response(bodies@, joints@, input@, joints@[i].b.body as int),
                            joints@[i].b.weights,
                        ),
                    )
                } else {
                    old(output)@[i]
                }),
        decreases count - index,
    {
        let joint = joints[index];
        let a = scaled_points(forces[joint.a.body], bodies[joint.a.body].inverse_diagonal);
        let b = scaled_points(forces[joint.b.body], bodies[joint.b.body].inverse_diagonal);
        output[index] = weighted_point(a, joint.a.weights).sub(
            weighted_point(b, joint.b.weights),
        );
        index = index + 1;
    }
}

/// Four points less what other four points are.
#[verifier::allow_in_spec]
pub fn retracted<S: Scalar>(
    points: ControlPoints<S>,
    step: ControlPoints<S>,
) -> (result: ControlPoints<S>)
    returns
        (ControlPoints::<S> {
            p0: points.p0.minus(step.p0),
            p1: points.p1.minus(step.p1),
            p2: points.p2.minus(step.p2),
            p3: points.p3.minus(step.p3),
        }),
{
    ControlPoints {
        p0: points.p0.sub(step.p0),
        p1: points.p1.sub(step.p1),
        p2: points.p2.sub(step.p2),
        p3: points.p3.sub(step.p3),
    }
}

/// Moves bodies as the multipliers of joints between any of their points ask for; a fixed
/// body stays.
pub fn apply_joint_correction_generic<S: Scalar>(
    bodies: &mut [AffineBody<S>],
    joints: &[BallJoint<S>],
    multipliers: &[Vec3<S>],
)
    requires
        forall|i: int|
            0 <= i < common_len(joints@.len(), multipliers@.len()) ==> (
            #[trigger] joints@[i]).a.body < old(bodies)@.len() && joints@[i].b.body < old(
                bodies,
            )@.len(),
    ensures
        final(bodies)@ == Seq::new(
            old(bodies)@.len(),
            |i: int|
                if old(bodies)@[i].fixed {
                    old(bodies)@[i]
                } else {
                    AffineBody {
                        positions: retracted(
                            old(bodies)@[i].positions,
                            force_response(old(bodies)@, joints@, multipliers@, i),
                        ),
                        ..old(bodies)@[i]
                    }
                },
        ),
{
    let count: usize = bodies.len();
    let forces = accumulate_forces(joints, multipliers, count);
    let mut index: usize = 0;
    while index < count
        invariant
            index <= count,
            count == bodies@.len(),
            count == old(bodies)@.len(),
            forces@ == Seq::new(
                count as nat,
                |body: int| joint_force(joints@, multipliers@, body),
            ),
            forall|i: int|
                0 <= i < count ==> (#[trigger] bodies@[i]) == (if i < index && !old(
                    bodies,
                )@[i].fixed {
                    AffineBody {
                        positions: retracted(
                            old(bodies)@[i].positions,
                            force_response(old(bodies)@, joints@, multipliers@, i),
                        ),
                        ..old(bodies)@[i]
                    }
                } else {
                    old(bodies)@[i]
                }),
        decreases count - index,
    {
        let mut body = bodies[index];
        if !body.fixed {
            body.positions = retracted(
                body.positions,
                scaled_points(forces[index], body.inverse_diagonal),
            );
            bodies[index] = body;
        }
        index = index + 1;
    }
}

} // verus!
