//! The shape projection of all bodies of a net.

use crate::body::{
    hub_attachment_center, rod_center_and_deformation_gradient, rod_joint_endpoints, AffineBody,
};
use crate::constants::affine_stiffness;
use crate::grid::{hub_count, hub_total, lemma_counts, rod_count, rod_total};
use crate::pair::closest_rotation_pair_2;
use crate::scalar::Scalar;
use crate::vector::Vec3;
use vstd::prelude::*;

verus! {

/// Two rods drawn towards their rigid shapes together, and their joint ends. It makes no
/// difference to either that the other is there.
pub fn project_rod_shape_pair<S: Scalar>(
    first: &mut AffineBody<S>,
    second: &mut AffineBody<S>,
) -> (endpoints: ((Vec3<S>, Vec3<S>), (Vec3<S>, Vec3<S>)))
    ensures
        *final(first) == old(first).rod_projected(2, true, true),
        *final(second) == old(second).rod_projected(2, true, true),
        endpoints.0 == rod_joint_endpoints(final(first).positions),
        endpoints.1 == rod_joint_endpoints(final(second).positions),
{
    let first_prediction_weight = first.inertia.mul(first.inverse_diagonal);
    let first_shape_weight = affine_stiffness::<S>().mul(first.inverse_diagonal);
    let second_prediction_weight = second.inertia.mul(second.inverse_diagonal);
    let second_shape_weight = affine_stiffness::<S>().mul(second.inverse_diagonal);
    let (first_center, first_gradient) = rod_center_and_deformation_gradient(first.positions);
    let (second_center, second_gradient) = rod_center_and_deformation_gradient(second.positions);
    match closest_rotation_pair_2(first_gradient, second_gradient) {
        Some((first_rotation, second_rotation)) => {
            first.project_rod_shape_from_rotation(
                first_center,
                first_rotation,
                first_prediction_weight,
                first_shape_weight,
            );
            second.project_rod_shape_from_rotation(
                second_center,
                second_rotation,
                second_prediction_weight,
                second_shape_weight,
            );
        },
        None => {
            first.project_rod_shape::<2, true, true>();
            second.project_rod_shape::<2, true, true>();
        },
    }
    (rod_joint_endpoints(first.positions), rod_joint_endpoints(second.positions))
}

/// The rods of a slice drawn towards their rigid shapes, in pairs where the variant has a
/// paired form, and their joint ends. Every rod ends up as if it were alone.
pub fn project_rod_shapes<
    S: Scalar,
    const POLAR_ITERATIONS: usize,
    const DIVISION_FREE_FINAL: bool,
    const FUSED_ROD_GEOMETRY: bool,
    const PAIR_ROD_POLAR: bool,
>(rods: &mut [AffineBody<S>], projected_rod_endpoints: &mut [Vec3<S>])
    requires
        old(projected_rod_endpoints)@.len() == 2 * old(rods)@.len(),
    ensures
        final(rods)@.len() == old(rods)@.len(),
        final(projected_rod_endpoints)@.len() == old(projected_rod_endpoints)@.len(),
        forall|i: int|
            0 <= i < old(rods)@.len() ==> (#[trigger] final(rods)@[i]) == old(rods)@[i].rod_projected(
                POLAR_ITERATIONS as nat,
                DIVISION_FREE_FINAL,
                FUSED_ROD_GEOMETRY,
            ),
        forall|i: int|
            #![trigger final(rods)@[i]]
            0 <= i < old(rods)@.len() ==> (
                final(projected_rod_endpoints)@[2 * i],
                final(projected_rod_endpoints)@[2 * i + 1],
            ) == rod_joint_endpoints(final(rods)@[i].positions),
{
    let count: usize = rods.len();
    let mut index: usize = 0;
    if PAIR_ROD_POLAR && POLAR_ITERATIONS == 2 && DIVISION_FREE_FINAL && FUSED_ROD_GEOMETRY {
        while count - index >= 2
            invariant
                POLAR_ITERATIONS == 2,
                DIVISION_FREE_FINAL,
                FUSED_ROD_GEOMETRY,
                index <= count,
                count == old(rods)@.len(),
                rods@.len() == count,
                projected_rod_endpoints@.len() == 2 * count,
                forall|i: int|
                    0 <= i < index ==> (#[trigger] rods@[i]) == old(rods)@[i].rod_projected(
                        POLAR_ITERATIONS as nat,
                        DIVISION_FREE_FINAL,
                        FUSED_ROD_GEOMETRY,
                    ),
                forall|i: int| index <= i < count ==> (#[trigger] rods@[i]) == old(rods)@[i],
                forall|i: int|
                    #![trigger rods@[i]]
                    0 <= i < index ==> (
                        projected_rod_endpoints@[2 * i],
                        projected_rod_endpoints@[2 * i + 1],
                    ) == rod_joint_endpoints(rods@[i].positions),
            decreases count - index,
        {
            assert(projected_rod_endpoints@.len() == projected_rod_endpoints.len());
            let mut first = rods[index];
            let mut second = rods[index + 1];
            let endpoints = project_rod_shape_pair(&mut first, &mut second);
            rods[index] = first;
            rods[index + 1] = second;
            projected_rod_endpoints[2 * index] = endpoints.0.0;
            projected_rod_endpoints[2 * index + 1] = endpoints.0.1;
            projected_rod_endpoints[2 * index + 2] = endpoints.1.0;
            projected_rod_endpoints[2 * index + 3] = endpoints.1.1;
            index = index + 2;
        }
    }
    while index < count
        invariant
            index <= count,
            count == old(rods)@.len(),
            rods@.len() == count,
            projected_rod_endpoints@.len() == 2 * count,
            forall|i: int|
                0 <= i < index ==> (#[trigger] rods@[i]) == old(rods)@[i].rod_projected(
                    POLAR_ITERATIONS as nat,
                    DIVISION_FREE_FINAL,
                    FUSED_ROD_GEOMETRY,
                ),
            forall|i: int| index <= i < count ==> (#[trigger] rods@[i]) == old(rods)@[i],
            forall|i: int|
                #![trigger rods@[i]]
                0 <= i < index ==> (
                    projected_rod_endpoints@[2 * i],
                    projected_rod_endpoints@[2 * i + 1],
                ) == rod_joint_endpoints(rods@[i].positions),
        decreases count - index,
    {
        assert(projected_rod_endpoints@.len() == projected_rod_endpoints.len());
        let mut rod = rods[index];
        rod.project_rod_shape::<POLAR_ITERATIONS, DIVISION_FREE_FINAL, FUSED_ROD_GEOMETRY>();
        rods[index] = rod;
        let endpoints = rod_joint_endpoints(rod.positions);
        projected_rod_endpoints[2 * index] = endpoints.0;
        projected_rod_endpoints[2 * index + 1] = endpoints.1;
        index = index + 1;
    }
}

/// The hubs of a slice drawn towards their rigid shapes, and their joint centres.
pub fn project_hub_shapes<S: Scalar>(hubs: &mut [AffineBody<S>], projected_hub_center: &mut [Vec3<S>])
    requires
        old(projected_hub_center)@.len() == old(hubs)@.len(),
    ensures
        final(hubs)@.len() == old(hubs)@.len(),
        final(projected_hub_center)@.len() == old(hubs)@.len(),
        forall|i: int|
            0 <= i < old(hubs)@.len() ==> (#[trigger] final(hubs)@[i]) == old(hubs)@[i].hub_projected(),
        forall|i: int|
            0 <= i < old(hubs)@.len() ==> (#[trigger] final(projected_hub_center)@[i])
                == hub_attachment_center(final(hubs)@[i].positions),
{
    let count: usize = hubs.len();
    let mut index: usize = 0;
    while index < count
        invariant
            index <= count,
            count == old(hubs)@.len(),
            hubs@.len() == count,
            projected_hub_center@.len() == count,
            forall|i: int|
                0 <= i < index ==> (#[trigger] hubs@[i]) == old(hubs)@[i].hub_projected(),
            forall|i: int| index <= i < count ==> (#[trigger] hubs@[i]) == old(hubs)@[i],
            forall|i: int|
                0 <= i < index ==> (#[trigger] projected_hub_center@[i]) == hub_attachment_center(
                    hubs@[i].positions,
                ),
        decreases count - index,
    {
        let mut hub = hubs[index];
        hub.project_hub_shape();
        hubs[index] = hub;
        projected_hub_center[index] = hub_attachment_center(hub.positions);
        index = index + 1;
    }
}

/// The balls of a slice drawn towards their rigid shapes.
pub fn project_ball_shapes<S: Scalar>(balls: &mut [AffineBody<S>])
    ensures
        final(balls)@.len() == old(balls)@.len(),
        forall|i: int|
            0 <= i < old(balls)@.len() ==> (#[trigger] final(balls)@[i]) == old(
                balls,
            )@[i].ball_projected(),
{
    let count: usize = balls.len();
    let mut index: usize = 0;
    while index < count
        invariant
            index <= count,
            count == old(balls)@.len(),
            balls@.len() == count,
            forall|i: int|
                0 <= i < index ==> (#[trigger] balls@[i]) == old(balls)@[i].ball_projected(),
            forall|i: int| index <= i < count ==> (#[trigger] balls@[i]) == old(balls)@[i],
        decreases count - index,
    {
        let mut ball = balls[index];
        ball.project_ball_shape();
        balls[index] = ball;
        index = index + 1;
    }
}

/// What the shape projection makes of the body with the given number. The number decides
/// whether the body counts as a hub, a rod or a ball.
pub open spec fn body_shape_projected<S: Scalar>(
    body: AffineBody<S>,
    number: int,
    n: int,
    polar_iterations: nat,
    division_free_final: bool,
    fused_geometry: bool,
) -> AffineBody<S> {
    if number < hub_total(n) {
        body.hub_projected()
    } else if number < hub_total(n) + rod_total(n) {
        body.rod_projected(polar_iterations, division_free_final, fused_geometry)
    } else {
        body.ball_projected()
    }
}

/// All bodies after their shape projection.
pub open spec fn bodies_shape_projected<S: Scalar>(
    bodies: Seq<AffineBody<S>>,
    n: int,
    polar_iterations: nat,
    division_free_final: bool,
    fused_geometry: bool,
) -> Seq<AffineBody<S>> {
    Seq::new(
        bodies.len(),
        |i: int|
            body_shape_projected(
                bodies[i],
                i,
                n,
                polar_iterations,
                division_free_final,
                fused_geometry,
            ),
    )
}

/// The joint centres of the hubs of a net.
pub open spec fn hub_centers<S: Scalar>(bodies: Seq<AffineBody<S>>, n: int) -> Seq<Vec3<S>> {
    Seq::new(hub_total(n) as nat, |i: int| hub_attachment_center(bodies[i].positions))
}

/// The joint ends of the rods of a net, two for each.
pub open spec fn rod_endpoints<S: Scalar>(bodies: Seq<AffineBody<S>>, n: int) -> Seq<Vec3<S>> {
    Seq::new(
        (2 * rod_total(n)) as nat,
        |i: int|
            {
                let ends = rod_joint_endpoints(bodies[hub_total(n) + i / 2].positions);
                if i % 2 == 0 {
                    ends.0
                } else {
                    ends.1
                }
            },
    )
}

/// Hubs, rods and balls projected part by part are all bodies projected, and rod ends
/// gathered rod by rod are all rod ends.
proof fn lemma_parts_projected<S: Scalar>(
    before: Seq<AffineBody<S>>,
    after: Seq<AffineBody<S>>,
    ends: Seq<Vec3<S>>,
    n: int,
    polar_iterations: nat,
    division_free_final: bool,
    fused_geometry: bool,
)
    requires
        n >= 1,
        hub_total(n) + rod_total(n) <= before.len(),
        after.len() == before.len(),
        ends.len() == 2 * rod_total(n),
        forall|i: int| 0 <= i < hub_total(n) ==> #[trigger] after[i] == before[i].hub_projected(),
        forall|i: int|
            0 <= i < rod_total(n) ==> #[trigger] after[hub_total(n) + i] == before[hub_total(n)
                + i].rod_projected(polar_iterations, division_free_final, fused_geometry)
                && (ends[2 * i], ends[2 * i + 1]) == rod_joint_endpoints(
                after[hub_total(n) + i].positions,
            ),
        forall|i: int|
            hub_total(n) + rod_total(n) <= i < before.len() ==> #[trigger] after[i]
                == before[i].ball_projected(),
    ensures
        after == bodies_shape_projected(
            before,
            n,
            polar_iterations,
            division_free_final,
            fused_geometry,
        ),
        ends == rod_endpoints(after, n),
{
    lemma_counts(n);
    let expected = bodies_shape_projected(
        before,
        n,
        polar_iterations,
        division_free_final,
        fused_geometry,
    );
    assert forall|i: int| 0 <= i < after.len() implies after[i] == expected[i] by {
        if hub_total(n) <= i && i < hub_total(n) + rod_total(n) {
            assert(after[hub_total(n) + (i - hub_total(n))] == after[i]);
        }
    }
    assert(after =~= expected);
    let gathered = rod_endpoints(after, n);
    assert forall|i: int| 0 <= i < ends.len() implies ends[i] == gathered[i] by {
        let rod = i / 2;
        let end = after[hub_total(n) + rod];
    }
    assert(ends =~= gathered);
}

/// Every body drawn towards its rigid shape, and the joint points of the result.
pub fn project_corotated_shapes<
    S: Scalar,
    const POLAR_ITERATIONS: usize,
    const DIVISION_FREE_FINAL: bool,
    const FUSED_ROD_GEOMETRY: bool,
>(
    bodies: &mut [AffineBody<S>],
    grid_size: usize,
    projected_hub_center: &mut [Vec3<S>],
    projected_rod_endpoints: &mut [Vec3<S>],
)
    requires
        grid_size >= 1,
        hub_total(grid_size as int) + rod_total(grid_size as int) <= old(bodies)@.len(),
        old(projected_hub_center)@.len() == hub_total(grid_size as int),
        old(projected_rod_endpoints)@.len() == 2 * rod_total(grid_size as int),
    ensures
        final(bodies)@ == bodies_shape_projected(
            old(bodies)@,
            grid_size as int,
            POLAR_ITERATIONS as nat,
            DIVISION_FREE_FINAL,
            FUSED_ROD_GEOMETRY,
        ),
        final(projected_hub_center)@ == hub_centers(final(bodies)@, grid_size as int),
        final(projected_rod_endpoints)@ == rod_endpoints(final(bodies)@, grid_size as int),
{
    proof {
        lemma_counts(grid_size as int);
        assert(bodies@.len() == bodies.len());
    }
    let hubs_total: usize = hub_count(grid_size);
    let rods_total: usize = rod_count(grid_size);
    let (hubs, remaining) = bodies.split_at_mut(hubs_total);
    let (rods, balls) = remaining.split_at_mut(rods_total);
    project_hub_shapes(hubs, projected_hub_center);
    project_rod_shapes::<S, POLAR_ITERATIONS, DIVISION_FREE_FINAL, FUSED_ROD_GEOMETRY, true>(
        rods,
        projected_rod_endpoints,
    );
    project_ball_shapes(balls);
    proof {
        let hubs_len = hubs_total as int;
        let rods_end = hubs_total + rods_total;
        assert forall|i: int| 0 <= i < rods_total implies #[trigger] bodies@[hubs_len + i]
            == old(bodies)@[hubs_len + i].rod_projected(
            POLAR_ITERATIONS as nat,
            DIVISION_FREE_FINAL,
            FUSED_ROD_GEOMETRY,
        ) && (projected_rod_endpoints@[2 * i], projected_rod_endpoints@[2 * i + 1])
            == rod_joint_endpoints(bodies@[hubs_len + i].positions) by {
            assert(bodies@[hubs_len + i] == bodies@.subrange(hubs_len, rods_end)[i]);
        }
        lemma_parts_projected(
            old(bodies)@,
            bodies@,
            projected_rod_endpoints@,
            grid_size as int,
            POLAR_ITERATIONS as nat,
            DIVISION_FREE_FINAL,
            FUSED_ROD_GEOMETRY,
        );
    }
}

} // verus!
