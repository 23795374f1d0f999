//! Ball joints between rods and hubs, and the direct solve that closes all of them.

use crate::body::{AffineBody, ControlPoints, Weights};
use crate::constants::CONTACT_PROXY_CHUNK_SIZE;
use crate::gather::{
    gather_joint_residuals_row_streaming, hub_deltas, joint_residuals,
};
use crate::grid::{
    end_hub, horizontal_rod_count, horizontal_total, hub_at, hub_count, hub_total, joint_total,
    lemma_counts, lemma_in_row, rod_count, rod_total, start_hub,
};
use crate::scalar::{half, one, quarter, zero, Scalar};
use crate::vector::Vec3;
use vstd::prelude::*;

verus! {

/// A point of a body: the weighted sum of its control points.
#[derive(Clone, Copy)]
pub struct Attachment<S> {
    pub body: usize,
    pub weights: Weights<S>,
}

/// A joint that keeps a point of a rod on a point of a hub.
#[derive(Clone, Copy)]
pub struct BallJoint<S> {
    pub a: Attachment<S>,
    pub b: Attachment<S>,
}

/// What the solver keeps between its phases and between steps.
pub struct SolverScratch<S> {
    /// The rod ends, or the joint residuals.
    pub constraint_residual: Vec<Vec3<S>>,
    /// The hub centres, or the hub movements.
    pub hub_weighted_residual: Vec<Vec3<S>>,
    /// What a residual sum is multiplied by to get a hub movement.
    pub hub_delta_scale: Vec<S>,
    /// The lower corners of the boxes around chunks of net bodies.
    pub contact_chunk_min: Vec<Vec3<S>>,
    /// The upper corners of the boxes around chunks of net bodies.
    pub contact_chunk_max: Vec<Vec3<S>>,
}

/// How many chunks a number of bodies fills.
pub open spec fn chunk_total(bodies: int) -> int {
    (bodies + CONTACT_PROXY_CHUNK_SIZE - 1) / (CONTACT_PROXY_CHUNK_SIZE as int)
}

/// How many chunks a number of bodies fills, the last of them not always to the end.
pub fn chunk_count(bodies: usize) -> (result: usize)
    ensures
        result == chunk_total(bodies as int),
{
    let whole: usize = bodies / CONTACT_PROXY_CHUNK_SIZE;
    if bodies % CONTACT_PROXY_CHUNK_SIZE > 0 {
        whole + 1
    } else {
        whole
    }
}

impl<S: Scalar> SolverScratch<S> {
    /// Scratch space of zeros for a net with the given numbers of bodies, joints and hubs.
    pub fn new(body_count: usize, joint_count: usize, hub_count: usize) -> (result: Self)
        ensures
            result.constraint_residual@ == Seq::new(joint_count as nat, |i: int| Vec3::<S>::origin()),
            result.hub_weighted_residual@ == Seq::new(hub_count as nat, |i: int| Vec3::<S>::origin()),
            result.hub_delta_scale@ == Seq::new(hub_count as nat, |i: int| zero::<S>()),
            result.contact_chunk_min@ == Seq::new(
                chunk_total(body_count as int) as nat,
                |i: int| Vec3::<S>::origin(),
            ),
            result.contact_chunk_max@ == Seq::new(
                chunk_total(body_count as int) as nat,
                |i: int| Vec3::<S>::origin(),
            ),
    {
        let chunks: usize = chunk_count(body_count);
        SolverScratch {
            constraint_residual: filled(Vec3::zero(), joint_count),
            hub_weighted_residual: filled(Vec3::zero(), hub_count),
            hub_delta_scale: filled(zero(), hub_count),
            contact_chunk_min: filled(Vec3::zero(), chunks),
            contact_chunk_max: filled(Vec3::zero(), chunks),
        }
    }
}

/// `count` copies of a value.
pub fn filled<T: Copy>(value: T, count: usize) -> (result: Vec<T>)
    ensures
        result@ == Seq::new(count as nat, |i: int| value),
{
    let mut values: Vec<T> = Vec::with_capacity(count);
    let mut index: usize = 0;
    while index < count
        invariant
            index <= count,
            values@ == Seq::new(index as nat, |i: int| value),
        decreases count - index,
    {
        values.push(value);
        index = index + 1;
    }
    values
}

/// One over half the inverse diagonal of a rod: how strongly it resists one of its joints.
#[verifier::allow_in_spec]
pub fn inverse_rod_weight<S: Scalar>(rod: AffineBody<S>) -> (result: S)
    returns
        one::<S>().over(rod.inverse_diagonal.times(half())),
{
    one::<S>().div(rod.inverse_diagonal.mul(half()))
}

/// How often a hub occurs among the first `count` joints.
pub open spec fn incidences<S: Scalar>(joints: Seq<BallJoint<S>>, count: int, hub: int) -> nat
    decreases count,
{
    if count <= 0 {
        0
    } else {
        incidences(joints, count - 1, hub) + (if joints[count - 1].b.body == hub {
            1nat
        } else {
            0nat
        })
    }
}

/// A term added to zero `count` times.
pub open spec fn repeated_sum<S: Scalar>(term: S, count: nat) -> S
    decreases count,
{
    if count == 0 {
        zero()
    } else {
        repeated_sum(term, (count - 1) as nat).plus(term)
    }
}

/// The resistance of the first rod, or zero where there is none. All rods of a net have the
/// same.
pub open spec fn common_rod_weight<S: Scalar>(
    bodies: Seq<AffineBody<S>>,
    joints: Seq<BallJoint<S>>,
) -> S {
    if joints.len() > 0 {
        inverse_rod_weight(bodies[joints[0].a.body as int])
    } else {
        zero()
    }
}

/// The factor of a hub whose rods resist with the given weights in sum.
#[verifier::allow_in_spec]
pub fn schur_factor<S: Scalar>(hub: AffineBody<S>, weight_sum: S) -> (result: S)
    returns
        ({
            let coupling = hub.inverse_diagonal.times(quarter());
            coupling.over(one::<S>().plus(coupling.times(weight_sum)))
        }),
{
    let coupling = hub.inverse_diagonal.mul(quarter());
    coupling.div(one::<S>().add(coupling.mul(weight_sum)))
}

/// What the residual sum of each hub is multiplied by.
pub open spec fn hub_delta_scales<S: Scalar>(
    bodies: Seq<AffineBody<S>>,
    joints: Seq<BallJoint<S>>,
    hubs: nat,
) -> Seq<S> {
    let weight = common_rod_weight(bodies, joints);
    let paired = joints.len() - joints.len() % 2;
    Seq::new(
        hubs,
        |hub: int|
            weight.times(
                schur_factor(bodies[hub], repeated_sum(weight, incidences(joints, paired, hub))),
            ),
    )
}

/// Computes what the residual sum of each hub is multiplied by. A joint without its partner
/// at the end does not count.
pub fn prepare_direct_joint_solver<S: Scalar>(
    bodies: &[AffineBody<S>],
    joints: &[BallJoint<S>],
    scratch: &mut SolverScratch<S>,
)
    requires
        old(scratch).hub_delta_scale@.len() <= bodies@.len(),
        joints@.len() > 0 ==> joints@[0].a.body < bodies@.len(),
        forall|i: int|
            0 <= i < joints@.len() - joints@.len() % 2 ==> (#[trigger] joints@[i]).b.body < old(
                scratch,
            ).hub_delta_scale@.len(),
    ensures
        final(scratch).hub_delta_scale@ == hub_delta_scales(
            bodies@,
            joints@,
            old(scratch).hub_delta_scale@.len(),
        ),
        final(scratch).constraint_residual == old(scratch).constraint_residual,
        final(scratch).hub_weighted_residual == old(scratch).hub_weighted_residual,
        final(scratch).contact_chunk_min == old(scratch).contact_chunk_min,
        final(scratch).contact_chunk_max == old(scratch).contact_chunk_max,
{
    let hubs: usize = scratch.hub_delta_scale.len();
    let paired: usize = joints.len() - joints.len() % 2;
    let weight: S = if joints.len() > 0 {
        inverse_rod_weight(bodies[joints[0].a.body])
    } else {
        zero()
    };
    let mut scale: Vec<S> = filled(zero(), hubs);
    let mut index: usize = 0;
    while index < paired
        invariant
            index <= paired <= joints@.len(),
            paired == joints@.len() - joints@.len() % 2,
            scale@.len() == hubs,
            hubs == old(scratch).hub_delta_scale@.len(),
            forall|i: int|
                0 <= i < joints@.len() - joints@.len() % 2 ==> (#[trigger] joints@[i]).b.body < old(
                    scratch,
                ).hub_delta_scale@.len(),
            forall|hub: int|
                0 <= hub < hubs ==> (#[trigger] scale@[hub]) == repeated_sum(
                    weight,
                    incidences(joints@, index as int, hub),
                ),
        decreases paired - index,
    {
        let hub: usize = joints[index].b.body;
        let sum = scale[hub].add(weight);
        scale[hub] = sum;
        index = index + 1;
    }
    let mut hub: usize = 0;
    while hub < hubs
        invariant
            hub <= hubs,
            scale@.len() == hubs,
            hubs <= bodies@.len(),
            forall|h: int|
                0 <= h < hubs ==> (#[trigger] scale@[h]) == ({
                    let sum = repeated_sum(weight, incidences(joints@, paired as int, h));
                    if h < hub {
                        weight.times(schur_factor(bodies@[h], sum))
                    } else {
                        sum
                    }
                }),
        decreases hubs - hub,
    {
        let factor = schur_factor(bodies[hub], scale[hub]);
        scale[hub] = weight.mul(factor);
        hub = hub + 1;
    }
    scratch.hub_delta_scale = scale;
}

/// All four points moved by `delta`.
#[verifier::allow_in_spec]
pub fn moved<S: Scalar>(points: ControlPoints<S>, delta: Vec3<S>) -> (result: ControlPoints<S>)
    returns
        (ControlPoints::<S> {
            p0: points.p0.plus(delta),
            p1: points.p1.plus(delta),
            p2: points.p2.plus(delta),
            p3: points.p3.plus(delta),
        }),
{
    ControlPoints {
        p0: points.p0.add(delta),
        p1: points.p1.add(delta),
        p2: points.p2.add(delta),
        p3: points.p3.add(delta),
    }
}

/// A hub after its movement; a fixed one stays.
pub open spec fn hub_corrected<S: Scalar>(hub: AffineBody<S>, delta: Vec3<S>) -> AffineBody<S> {
    if hub.fixed {
        hub
    } else {
        AffineBody { positions: moved(hub.positions, delta), ..hub }
    }
}

/// Moves the hubs of a slice.
pub fn apply_hub_joint_deltas<S: Scalar>(hubs: &mut [AffineBody<S>], hub_delta: &[Vec3<S>])
    requires
        old(hubs)@.len() == hub_delta@.len(),
    ensures
        final(hubs)@.len() == old(hubs)@.len(),
        forall|i: int|
            0 <= i < old(hubs)@.len() ==> (#[trigger] final(hubs)@[i]) == hub_corrected(
                old(hubs)@[i],
                hub_delta@[i],
            ),
{
    let count: usize = hubs.len();
    let mut index: usize = 0;
    while index < count
        invariant
            index <= count,
            count == old(hubs)@.len(),
            hubs@.len() == count,
            hub_delta@.len() == count,
            forall|i: int|
                0 <= i < count ==> (#[trigger] hubs@[i]) == (if i < index {
                    hub_corrected(old(hubs)@[i], hub_delta@[i])
                } else {
                    old(hubs)@[i]
                }),
        decreases count - index,
    {
        let mut hub = hubs[index];
        if !hub.fixed {
            hub.positions = moved(hub.positions, hub_delta[index]);
            hubs[index] = hub;
        }
        index = index + 1;
    }
}

/// The points of a rod with its two ends moved back by the given corrections.
#[verifier::allow_in_spec]
pub fn ends_corrected<S: Scalar>(
    points: ControlPoints<S>,
    start_correction: Vec3<S>,
    end_correction: Vec3<S>,
) -> (result: ControlPoints<S>)
    returns
        (ControlPoints::<S> {
            p0: points.p0.minus(start_correction),
            p1: points.p1.minus(start_correction),
            p2: points.p2.minus(end_correction),
            p3: points.p3.minus(end_correction),
        }),
{
    ControlPoints {
        p0: points.p0.sub(start_correction),
        p1: points.p1.sub(start_correction),
        p2: points.p2.sub(end_correction),
        p3: points.p3.sub(end_correction),
    }
}

/// A rod whose ends follow its hubs: each end moves back by its residual less what its hub
/// moves.
pub open spec fn rod_corrected<S: Scalar>(
    rod: AffineBody<S>,
    start_residual: Vec3<S>,
    end_residual: Vec3<S>,
    start_delta: Vec3<S>,
    end_delta: Vec3<S>,
) -> AffineBody<S> {
    AffineBody {
        positions: ends_corrected(
            rod.positions,
            start_residual.minus(start_delta),
            end_residual.minus(end_delta),
        ),
        ..rod
    }
}

pub fn apply_rod_joint_deltas<S: Scalar>(
    rod: &mut AffineBody<S>,
    start_residual: Vec3<S>,
    end_residual: Vec3<S>,
    start_hub_delta: Vec3<S>,
    end_hub_delta: Vec3<S>,
)
    ensures
        *final(rod) == rod_corrected(
            *old(rod),
            start_residual,
            end_residual,
            start_hub_delta,
            end_hub_delta,
        ),
{
    let start_correction = start_residual.sub(start_hub_delta);
    let end_correction = end_residual.sub(end_hub_delta);
    rod.positions = ends_corrected(rod.positions, start_correction, end_correction);
}

/// Corrects whole rows of horizontal rods; the first of them is row `first_row` of the net.
pub fn project_horizontal_rod_joint_constraints<S: Scalar>(
    rods: &mut [AffineBody<S>],
    residuals: &[Vec3<S>],
    hub_delta: &[Vec3<S>],
    grid_size: usize,
    first_row: usize,
)
    requires
        grid_size >= 2,
        old(rods)@.len() % ((grid_size - 1) as nat) == 0,
        residuals@.len() == 2 * old(rods)@.len(),
        (first_row + old(rods)@.len() / ((grid_size - 1) as nat)) * grid_size <= hub_delta@.len(),
    ensures
        final(rods)@.len() == old(rods)@.len(),
        forall|i: int|
            0 <= i < old(rods)@.len() ==> (#[trigger] final(rods)@[i]) == ({
                let hub = hub_at(
                    grid_size as int,
                    first_row + i / (grid_size - 1),
                    i % (grid_size - 1),
                );
                rod_corrected(
                    old(rods)@[i],
                    residuals@[2 * i],
                    residuals@[2 * i + 1],
                    hub_delta@[hub],
                    hub_delta@[hub + 1],
                )
            }),
{
    let ghost n = grid_size as int;
    let ghost rows = old(rods)@.len() as int / (n - 1);
    let count: usize = rods.len();
    let rods_per_row: usize = grid_size - 1;
    assert(residuals@.len() == residuals.len());
    assert(hub_delta@.len() == hub_delta.len());
    proof {
        vstd::arithmetic::div_mod::lemma_fundamental_div_mod(count as int, n - 1);
        assert((n - 1) * rows == rows * (n - 1)) by (nonlinear_arith);
        assert(first_row * n <= (first_row + rows) * n) by (nonlinear_arith)
            requires
                rows >= 0,
                n >= 0,
        ;
    }
    let mut row_start: usize = 0;
    let mut hub_start: usize = first_row * grid_size;
    let ghost mut row: int = 0;
    while row_start < count
        invariant
            n == grid_size,
            grid_size >= 2,
            rods_per_row == n - 1,
            0 <= row <= rows,
            count == rows * (n - 1),
            row_start == row * (n - 1),
            row_start <= count,
            hub_start == (first_row + row) * n,
            (first_row + rows) * n <= hub_delta@.len() <= usize::MAX,
            count == old(rods)@.len(),
            rods@.len() == count,
            residuals@.len() == 2 * count,
            residuals@.len() <= usize::MAX,
            forall|i: int|
                0 <= i < count ==> (#[trigger] rods@[i]) == (if i < row_start {
                    let hub = hub_at(n, first_row + i / (n - 1), i % (n - 1));
                    rod_corrected(
                        old(rods)@[i],
                        residuals@[2 * i],
                        residuals@[2 * i + 1],
                        hub_delta@[hub],
                        hub_delta@[hub + 1],
                    )
                } else {
                    old(rods)@[i]
                }),
        decreases count - row_start,
    {
        proof {
            assert(row < rows) by (nonlinear_arith)
                requires
                    row * (n - 1) < rows * (n - 1),
                    n >= 2,
            ;
            assert((row + 1) * (n - 1) == row * (n - 1) + (n - 1)) by (nonlinear_arith);
            assert((row + 1) * (n - 1) <= rows * (n - 1)) by (nonlinear_arith)
                requires
                    row + 1 <= rows,
                    n >= 2,
            ;
            assert((first_row + row + 1) * n == (first_row + row) * n + n) by (nonlinear_arith);
            assert((first_row + row + 1) * n <= (first_row + rows) * n) by (nonlinear_arith)
                requires
                    row + 1 <= rows,
                    n >= 2,
            ;
        }
        let mut column: usize = 0;
        while column < rods_per_row
            invariant
                n == grid_size,
                grid_size >= 2,
                rods_per_row == n - 1,
                0 <= column <= rods_per_row,
                0 <= row < rows,
                row_start == row * (n - 1),
                row_start + rods_per_row <= count,
                hub_start == (first_row + row) * n,
                hub_start + n <= hub_delta@.len() <= usize::MAX,
                count == old(rods)@.len(),
                rods@.len() == count,
                residuals@.len() == 2 * count,
                residuals@.len() <= usize::MAX,
                forall|i: int|
                    0 <= i < count ==> (#[trigger] rods@[i]) == (if i < row_start + column {
                        let hub = hub_at(n, first_row + i / (n - 1), i % (n - 1));
                        rod_corrected(
                            old(rods)@[i],
                            residuals@[2 * i],
                            residuals@[2 * i + 1],
                            hub_delta@[hub],
                            hub_delta@[hub + 1],
                        )
                    } else {
                        old(rods)@[i]
                    }),
            decreases rods_per_row - column,
        {
            let index: usize = row_start + column;
            proof {
                lemma_in_row(n - 1, row, index as int);
            }
            let mut rod = rods[index];
            apply_rod_joint_deltas(
                &mut rod,
                residuals[2 * index],
                residuals[2 * index + 1],
                hub_delta[hub_start + column],
                hub_delta[hub_start + column + 1],
            );
            rods[index] = rod;
            column = column + 1;
        }
        row_start = row_start + rods_per_row;
        hub_start = hub_start + grid_size;
        proof {
            row = row + 1;
        }
    }
}

/// Corrects whole rows of vertical rods; the first of them is row `first_row` of the net.
pub fn project_vertical_rod_joint_constraints<S: Scalar>(
    rods: &mut [AffineBody<S>],
    residuals: &[Vec3<S>],
    hub_delta: &[Vec3<S>],
    grid_size: usize,
    first_row: usize,
)
    requires
        grid_size >= 1,
        old(rods)@.len() % (grid_size as nat) == 0,
        residuals@.len() == 2 * old(rods)@.len(),
        first_row * grid_size + old(rods)@.len() + grid_size <= hub_delta@.len(),
    ensures
        final(rods)@.len() == old(rods)@.len(),
        forall|i: int|
            0 <= i < old(rods)@.len() ==> (#[trigger] final(rods)@[i]) == ({
                let hub = first_row * grid_size + i;
                rod_corrected(
                    old(rods)@[i],
                    residuals@[2 * i],
                    residuals@[2 * i + 1],
                    hub_delta@[hub],
                    hub_delta@[hub + grid_size],
                )
            }),
{
    let count: usize = rods.len();
    assert(residuals@.len() == residuals.len());
    assert(hub_delta@.len() == hub_delta.len());
    proof {
        assert(first_row * grid_size >= 0) by (nonlinear_arith)
            requires
                first_row >= 0,
                grid_size >= 0,
        ;
    }
    let hub_start: usize = first_row * grid_size;
    let mut index: usize = 0;
    while index < count
        invariant
            index <= count,
            hub_start == first_row * grid_size,
            hub_start + count + grid_size <= hub_delta@.len() <= usize::MAX,
            count == old(rods)@.len(),
            rods@.len() == count,
            residuals@.len() == 2 * count,
            residuals@.len() <= usize::MAX,
            forall|i: int|
                0 <= i < count ==> (#[trigger] rods@[i]) == (if i < index {
                    rod_corrected(
                        old(rods)@[i],
                        residuals@[2 * i],
                        residuals@[2 * i + 1],
                        hub_delta@[hub_start + i],
                        hub_delta@[hub_start + i + grid_size],
                    )
                } else {
                    old(rods)@[i]
                }),
        decreases count - index,
    {
        let mut rod = rods[index];
        apply_rod_joint_deltas(
            &mut rod,
            residuals[2 * index],
            residuals[2 * index + 1],
            hub_delta[hub_start + index],
            hub_delta[hub_start + index + grid_size],
        );
        rods[index] = rod;
        index = index + 1;
    }
}

/// A rod of a net after its correction.
pub open spec fn net_rod_corrected<S: Scalar>(
    rod: AffineBody<S>,
    number: int,
    residuals: Seq<Vec3<S>>,
    deltas: Seq<Vec3<S>>,
    n: int,
) -> AffineBody<S> {
    rod_corrected(
        rod,
        residuals[2 * number],
        residuals[2 * number + 1],
        deltas[start_hub(n, number)],
        deltas[end_hub(n, number)],
    )
}

/// Corrects all rods of a net, finding their hubs by their place in it.
pub fn project_rod_joint_constraints_structured<S: Scalar>(
    rods: &mut [AffineBody<S>],
    residuals: &[Vec3<S>],
    hub_delta: &[Vec3<S>],
    grid_size: usize,
)
    requires
        grid_size >= 2,
        old(rods)@.len() == rod_total(grid_size as int),
        residuals@.len() == joint_total(grid_size as int),
        hub_delta@.len() == hub_total(grid_size as int),
    ensures
        final(rods)@.len() == old(rods)@.len(),
        forall|i: int|
            0 <= i < old(rods)@.len() ==> (#[trigger] final(rods)@[i]) == net_rod_corrected(
                old(rods)@[i],
                i,
                residuals@,
                hub_delta@,
                grid_size as int,
            ),
{
    let ghost n = grid_size as int;
    let ghost rods_before = rods@;
    assert(rods@.len() == rods.len());
    assert(residuals@.len() == residuals.len());
    proof {
        lemma_counts(n);
        vstd::arithmetic::div_mod::lemma_fundamental_div_mod_converse(
            horizontal_total(n),
            n - 1,
            n,
            0,
        );
        vstd::arithmetic::div_mod::lemma_fundamental_div_mod_converse(
            horizontal_total(n),
            n,
            n - 1,
            0,
        );
        assert((0 + n) * n == n * n);
    }
    let horizontal: usize = horizontal_rod_count(grid_size);
    let (horizontal_rods, vertical_rods) = rods.split_at_mut(horizontal);
    let (horizontal_residuals, vertical_residuals) = residuals.split_at(2 * horizontal);
    project_horizontal_rod_joint_constraints(
        horizontal_rods,
        horizontal_residuals,
        hub_delta,
        grid_size,
        0,
    );
    project_vertical_rod_joint_constraints(
        vertical_rods,
        vertical_residuals,
        hub_delta,
        grid_size,
        0,
    );
}

/// Corrects rods one by one, looking up the hubs of their joints.
pub fn project_rod_joint_constraints_reference<S: Scalar>(
    rods: &mut [AffineBody<S>],
    residuals: &[Vec3<S>],
    joint_hubs: &[usize],
    hub_delta: &[Vec3<S>],
)
    requires
        residuals@.len() == 2 * old(rods)@.len(),
        joint_hubs@.len() == 2 * old(rods)@.len(),
        forall|i: int|
            0 <= i < joint_hubs@.len() ==> (#[trigger] joint_hubs@[i]) < hub_delta@.len(),
    ensures
        final(rods)@.len() == old(rods)@.len(),
        forall|i: int|
            0 <= i < old(rods)@.len() ==> (#[trigger] final(rods)@[i]) == rod_corrected(
                old(rods)@[i],
                residuals@[2 * i],
                residuals@[2 * i + 1],
                hub_delta@[joint_hubs@[2 * i] as int],
                hub_delta@[joint_hubs@[2 * i + 1] as int],
            ),
{
    let count: usize = rods.len();
    assert(residuals@.len() == residuals.len());
    let mut index: usize = 0;
    while index < count
        invariant
            index <= count,
            count == old(rods)@.len(),
            rods@.len() == count,
            residuals@.len() == 2 * count,
            residuals@.len() <= usize::MAX,
            joint_hubs@.len() == 2 * count,
            forall|i: int|
                0 <= i < joint_hubs@.len() ==> (#[trigger] joint_hubs@[i]) < hub_delta@.len(),
            forall|i: int|
                0 <= i < count ==> (#[trigger] rods@[i]) == (if i < index {
                    rod_corrected(
                        old(rods)@[i],
                        residuals@[2 * i],
                        residuals@[2 * i + 1],
                        hub_delta@[joint_hubs@[2 * i] as int],
                        hub_delta@[joint_hubs@[2 * i + 1] as int],
                    )
                } else {
                    old(rods)@[i]
                }),
        decreases count - index,
    {
        let mut rod = rods[index];
        apply_rod_joint_deltas(
            &mut rod,
            residuals[2 * index],
            residuals[2 * index + 1],
            hub_delta[joint_hubs[2 * index]],
            hub_delta[joint_hubs[2 * index + 1]],
        );
        rods[index] = rod;
        index = index + 1;
    }
}

/// What the joint solve makes of the body with the given number: hubs move, rods follow them,
/// and balls stay.
pub open spec fn body_joint_corrected<S: Scalar>(
    body: AffineBody<S>,
    number: int,
    residuals: Seq<Vec3<S>>,
    deltas: Seq<Vec3<S>>,
    n: int,
) -> AffineBody<S> {
    if number < hub_total(n) {
        hub_corrected(body, deltas[number])
    } else if number < hub_total(n) + rod_total(n) {
        net_rod_corrected(body, number - hub_total(n), residuals, deltas, n)
    } else {
        body
    }
}

/// All bodies after the joint solve with the given rod ends and hub centres.
pub open spec fn bodies_joint_corrected<S: Scalar>(
    bodies: Seq<AffineBody<S>>,
    endpoints: Seq<Vec3<S>>,
    centers: Seq<Vec3<S>>,
    scale: Seq<S>,
    n: int,
) -> Seq<AffineBody<S>> {
    let residuals = joint_residuals(endpoints, centers, n);
    let deltas = hub_deltas(endpoints, centers, scale, n);
    Seq::new(bodies.len(), |i: int| body_joint_corrected(bodies[i], i, residuals, deltas, n))
}

/// Closes the joints of a net. The scratch space holds the rod ends and the hub centres of
/// the bodies before, and the joint residuals and the hub movements after.
pub fn project_joint_constraints_direct<S: Scalar>(
    bodies: &mut [AffineBody<S>],
    scratch: &mut SolverScratch<S>,
    grid_size: usize,
)
    requires
        grid_size >= 2,
        hub_total(grid_size as int) + rod_total(grid_size as int) <= old(bodies)@.len(),
        old(scratch).constraint_residual@.len() == joint_total(grid_size as int),
        old(scratch).hub_weighted_residual@.len() == hub_total(grid_size as int),
        old(scratch).hub_delta_scale@.len() == hub_total(grid_size as int),
    ensures
        final(bodies)@ == bodies_joint_corrected(
            old(bodies)@,
            old(scratch).constraint_residual@,
            old(scratch).hub_weighted_residual@,
            old(scratch).hub_delta_scale@,
            grid_size as int,
        ),
        final(scratch).constraint_residual@ == joint_residuals(
            old(scratch).constraint_residual@,
            old(scratch).hub_weighted_residual@,
            grid_size as int,
        ),
        final(scratch).hub_weighted_residual@ == hub_deltas(
            old(scratch).constraint_residual@,
            old(scratch).hub_weighted_residual@,
            old(scratch).hub_delta_scale@,
            grid_size as int,
        ),
        final(scratch).hub_delta_scale == old(scratch).hub_delta_scale,
        final(scratch).contact_chunk_min == old(scratch).contact_chunk_min,
        final(scratch).contact_chunk_max == old(scratch).contact_chunk_max,
{
    assert(bodies@.len() == bodies.len());
    proof {
        lemma_counts(grid_size as int);
    }
    gather_joint_residuals_row_streaming(
        scratch.constraint_residual.as_mut_slice(),
        scratch.hub_weighted_residual.as_mut_slice(),
        scratch.hub_delta_scale.as_slice(),
        grid_size,
    );
    let hubs_total: usize = hub_count(grid_size);
    let rods_total: usize = rod_count(grid_size);
    let (hubs, non_hubs) = bodies.split_at_mut(hubs_total);
    let (rods, _) = non_hubs.split_at_mut(rods_total);
    let residuals = scratch.constraint_residual.as_slice();
    let hub_delta = scratch.hub_weighted_residual.as_slice();
    apply_hub_joint_deltas(hubs, hub_delta);
    project_rod_joint_constraints_structured(rods, residuals, hub_delta, grid_size);
}

} // verus!
