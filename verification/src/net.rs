//! The bodies and joints that a demo starts with.

use crate::body::{
    ball_rest_points, hub_center, hub_rest_points, rod_end, rod_rest_points, rod_start, AffineBody,
    BodyKind, ControlPoints,
};
use crate::constants::{
    cylinder_radius, default_cylinder_length, grid_spacing, DEFAULT_GRID_SIZE,
};
use crate::cylinder::CylinderCollider;
use crate::grid::{
    end_hub, horizontal_rod_at, horizontal_total, hub_at, hub_total, joint_hub, joint_total,
    lemma_counts, lemma_row_index, net_total, rod_total, start_hub, vertical_rod_at,
};
use crate::joints::{Attachment, BallJoint};
use crate::scalar::{half, zero, Scalar};
use crate::scene::DemoScene;
use crate::vector::Vec3;
use vstd::prelude::*;

verus! {

/// One less than a number, but not below zero.
pub open spec fn predecessor(value: usize) -> usize {
    if value > 0 {
        (value - 1) as usize
    } else {
        0
    }
}

/// How far it is from the first hub of a row to the last.
pub open spec fn span_of<S: Scalar>(grid_size: usize) -> S {
    S::count(predecessor(grid_size)).times(grid_spacing())
}

pub fn grid_span<S: Scalar>(grid_size: usize) -> (result: S)
    ensures
        result == span_of::<S>(grid_size),
{
    let gaps: usize = if grid_size > 0 {
        grid_size - 1
    } else {
        0
    };
    S::from_count(gaps).mul(grid_spacing())
}

/// Where the line of the cylinder lies along z: as far from the middle of the net as under
/// the default net.
pub open spec fn cylinder_z<S: Scalar>(grid_size: usize) -> S {
    span_of::<S>(grid_size).negated().times(half()).plus(
        S::fraction(23, 10).negated().plus(span_of::<S>(DEFAULT_GRID_SIZE).times(half())),
    )
}

pub fn cylinder_origin_z<S: Scalar>(grid_size: usize) -> (result: S)
    ensures
        result == cylinder_z::<S>(grid_size),
{
    let default_center_offset = S::from_fraction(23, 10).neg().add(
        grid_span::<S>(DEFAULT_GRID_SIZE).mul(half()),
    );
    grid_span::<S>(grid_size).neg().mul(half()).add(default_center_offset)
}

/// The length of the cylinder: it stands out of the net as far as under the default net.
pub open spec fn cylinder_span<S: Scalar>(grid_size: usize) -> S {
    span_of::<S>(grid_size).plus(
        default_cylinder_length::<S>().minus(span_of::<S>(DEFAULT_GRID_SIZE)),
    )
}

pub fn cylinder_length<S: Scalar>(grid_size: usize) -> (result: S)
    ensures
        result == cylinder_span::<S>(grid_size),
{
    let default_end_margin = default_cylinder_length::<S>().sub(grid_span(DEFAULT_GRID_SIZE));
    grid_span::<S>(grid_size).add(default_end_margin)
}

/// How far a row or column is from the middle of the net.
pub open spec fn centered<S: Scalar>(grid_size: usize, index: usize) -> S {
    S::count(index).minus(S::count(predecessor(grid_size)).times(half())).times(grid_spacing())
}

/// Where a hub starts. The net that catches balls lies level about the middle; the others
/// reach back from their pinned edge, higher up.
pub open spec fn node_position<S: Scalar>(
    scene: DemoScene,
    grid_size: usize,
    row: usize,
    column: usize,
) -> Vec3<S> {
    Vec3 {
        x: centered(grid_size, column),
        y: if scene == DemoScene::FallingBalls {
            S::fraction(17, 10)
        } else {
            S::fraction(3, 1)
        },
        z: if scene == DemoScene::FallingBalls {
            centered(grid_size, row)
        } else {
            S::count(row).negated().times(grid_spacing())
        },
    }
}

pub fn place_node<S: Scalar>(
    scene: DemoScene,
    grid_size: usize,
    row: usize,
    column: usize,
) -> (result: Vec3<S>)
    requires
        grid_size >= 1,
    ensures
        result == node_position::<S>(scene, grid_size, row, column),
{
    let middle = S::from_count(grid_size - 1).mul(half());
    let x = S::from_count(column).sub(middle).mul(grid_spacing());
    if scene == DemoScene::FallingBalls {
        let z = S::from_count(row).sub(middle).mul(grid_spacing());
        Vec3::new(x, S::from_fraction(17, 10), z)
    } else {
        let z = S::from_count(row).neg().mul(grid_spacing());
        Vec3::new(x, S::from_fraction(3, 1), z)
    }
}

/// Whether a hub is pinned: the first row of a hanging net, the corners of the one that
/// catches balls.
pub open spec fn pinned(scene: DemoScene, n: int, row: int, column: int) -> bool {
    if scene == DemoScene::FallingBalls {
        (row == 0 || row == n - 1) && (column == 0 || column == n - 1)
    } else {
        row == 0
    }
}

pub fn is_pinned(scene: DemoScene, grid_size: usize, row: usize, column: usize) -> (result: bool)
    requires
        grid_size >= 1,
    ensures
        result == pinned(scene, grid_size as int, row as int, column as int),
{
    match scene {
        DemoScene::JointGrid | DemoScene::CylinderDrape => row == 0,
        DemoScene::FallingBalls => (row == 0 || row == grid_size - 1) && (column == 0 || column
            == grid_size - 1),
    }
}

/// Where the hub with the given number starts.
pub open spec fn hub_position<S: Scalar>(scene: DemoScene, grid_size: usize, hub: int) -> Vec3<S> {
    node_position(
        scene,
        grid_size,
        (hub / grid_size as int) as usize,
        (hub % grid_size as int) as usize,
    )
}

/// A hub at its start.
pub open spec fn initial_hub<S: Scalar>(
    scene: DemoScene,
    grid_size: usize,
    hub: int,
) -> AffineBody<S> {
    let n = grid_size as int;
    let fixed = pinned(scene, n, hub / n, hub % n);
    AffineBody::new(
        BodyKind::Hub { fixed },
        hub_rest_points(),
        hub_position(scene, grid_size, hub),
        fixed,
    )
}

/// The rest points of a rod turned from the x axis to a direction.
pub open spec fn turned_rod_points<S: Scalar>(direction: Vec3<S>) -> ControlPoints<S> {
    let points = rod_rest_points::<S>();
    ControlPoints {
        p0: S::turned(direction, points.p0),
        p1: S::turned(direction, points.p1),
        p2: S::turned(direction, points.p2),
        p3: S::turned(direction, points.p3),
    }
}

/// A rod between two hubs at its start.
pub open spec fn rod_between<S: Scalar>(start: Vec3<S>, end: Vec3<S>) -> AffineBody<S> {
    AffineBody::new(
        BodyKind::Rod,
        turned_rod_points(end.minus(start).normal()),
        start.plus(end).scaled(half()),
        false,
    )
}

/// The rod with the given number at its start.
pub open spec fn initial_rod<S: Scalar>(
    scene: DemoScene,
    grid_size: usize,
    rod: int,
) -> AffineBody<S> {
    rod_between(
        hub_position(scene, grid_size, start_hub(grid_size as int, rod)),
        hub_position(scene, grid_size, end_hub(grid_size as int, rod)),
    )
}

/// How many balls fall in a demo.
pub open spec fn ball_total(scene: DemoScene) -> int {
    if scene == DemoScene::FallingBalls {
        3
    } else {
        0
    }
}

/// Where a ball starts.
pub open spec fn ball_position<S: Scalar>(ball: int) -> Vec3<S> {
    if ball == 0 {
        Vec3 {
            x: S::fraction(110, 100).negated(),
            y: S::fraction(280, 100),
            z: S::fraction(80, 100).negated(),
        }
    } else if ball == 1 {
        Vec3 {
            x: S::fraction(85, 100),
            y: S::fraction(315, 100),
            z: S::fraction(25, 100).negated(),
        }
    } else {
        Vec3 {
            x: S::fraction(20, 100).negated(),
            y: S::fraction(350, 100),
            z: S::fraction(105, 100),
        }
    }
}

pub fn place_ball<S: Scalar>(ball: usize) -> (result: Vec3<S>)
    ensures
        result == ball_position::<S>(ball as int),
{
    if ball == 0 {
        Vec3::new(
            S::from_fraction(110, 100).neg(),
            S::from_fraction(280, 100),
            S::from_fraction(80, 100).neg(),
        )
    } else if ball == 1 {
        Vec3::new(
            S::from_fraction(85, 100),
            S::from_fraction(315, 100),
            S::from_fraction(25, 100).neg(),
        )
    } else {
        Vec3::new(
            S::from_fraction(20, 100).neg(),
            S::from_fraction(350, 100),
            S::from_fraction(105, 100),
        )
    }
}

/// A ball at its start.
pub open spec fn initial_ball<S: Scalar>(ball: int) -> AffineBody<S> {
    AffineBody::new(BodyKind::Ball, ball_rest_points(), ball_position(ball), false)
}

/// The body with the given number at its start.
pub open spec fn initial_body<S: Scalar>(
    scene: DemoScene,
    grid_size: usize,
    number: int,
) -> AffineBody<S> {
    let n = grid_size as int;
    if number < hub_total(n) {
        initial_hub(scene, grid_size, number)
    } else if number < net_total(n) {
        initial_rod(scene, grid_size, number - hub_total(n))
    } else {
        initial_ball(number - net_total(n))
    }
}

/// All bodies of a demo at their start: hubs, horizontal rods, vertical rods, balls.
pub open spec fn initial_bodies<S: Scalar>(
    scene: DemoScene,
    grid_size: usize,
) -> Seq<AffineBody<S>> {
    Seq::new(
        (net_total(grid_size as int) + ball_total(scene)) as nat,
        |i: int| initial_body::<S>(scene, grid_size, i),
    )
}

/// The joint with the given number of a net.
pub open spec fn net_joint<S: Scalar>(n: int, joint: int) -> BallJoint<S> {
    BallJoint {
        a: Attachment {
            body: (hub_total(n) + joint / 2) as usize,
            weights: if joint % 2 == 0 {
                rod_start()
            } else {
                rod_end()
            },
        },
        b: Attachment { body: joint_hub(n, joint) as usize, weights: hub_center() },
    }
}

/// The joints of a net, two for each rod, at its start and at its end.
pub open spec fn net_joints<S: Scalar>(n: int) -> Seq<BallJoint<S>> {
    Seq::new(joint_total(n) as nat, |joint: int| net_joint(n, joint))
}

/// The cylinder of a demo.
pub open spec fn initial_cylinder<S: Scalar>(
    scene: DemoScene,
    grid_size: usize,
) -> Option<CylinderCollider<S>> {
    if scene == DemoScene::CylinderDrape {
        Some(
            CylinderCollider {
                origin: Vec3 { x: zero(), y: S::fraction(175, 100), z: cylinder_z(grid_size) },
                axis: Vec3::x_unit(),
                radius: cylinder_radius(),
                length: cylinder_span(grid_size),
            },
        )
    } else {
        None
    }
}

pub fn build_cylinder<S: Scalar>(scene: DemoScene, grid_size: usize) -> (result: Option<
    CylinderCollider<S>,
>)
    ensures
        result == initial_cylinder::<S>(scene, grid_size),
{
    if scene == DemoScene::CylinderDrape {
        Some(
            CylinderCollider {
                origin: Vec3::new(
                    zero(),
                    S::from_fraction(175, 100),
                    cylinder_origin_z(grid_size),
                ),
                axis: Vec3::unit_x(),
                radius: cylinder_radius(),
                length: cylinder_length(grid_size),
            },
        )
    } else {
        None
    }
}

/// Adds a rod between two hubs, and its two joints.
pub fn add_rod<S: Scalar>(
    bodies: &mut Vec<AffineBody<S>>,
    joints: &mut Vec<BallJoint<S>>,
    start_hub: usize,
    end_hub: usize,
    start: Vec3<S>,
    end: Vec3<S>,
)
    ensures
        final(bodies)@ == old(bodies)@.push(rod_between(start, end)),
        final(joints)@ == old(joints)@.push(
            BallJoint {
                a: Attachment { body: old(bodies)@.len() as usize, weights: rod_start() },
                b: Attachment { body: start_hub, weights: hub_center() },
            },
        ).push(
            BallJoint {
                a: Attachment { body: old(bodies)@.len() as usize, weights: rod_end() },
                b: Attachment { body: end_hub, weights: hub_center() },
            },
        ),
{
    let direction = end.sub(start).normalize();
    let rod_index: usize = bodies.len();
    let points = rod_rest_points::<S>();
    let offsets = ControlPoints {
        p0: S::turn_from_x(direction, points.p0),
        p1: S::turn_from_x(direction, points.p1),
        p2: S::turn_from_x(direction, points.p2),
        p3: S::turn_from_x(direction, points.p3),
    };
    bodies.push(AffineBody::new(BodyKind::Rod, offsets, start.add(end).scale(half()), false));
    joints.push(
        BallJoint {
            a: Attachment { body: rod_index, weights: rod_start() },
            b: Attachment { body: start_hub, weights: hub_center() },
        },
    );
    joints.push(
        BallJoint {
            a: Attachment { body: rod_index, weights: rod_end() },
            b: Attachment { body: end_hub, weights: hub_center() },
        },
    );
}

/// Whether the bodies and joints of a demo have numbers that fit in a machine word.
pub open spec fn fits(grid_size: usize) -> bool {
    &&& net_total(grid_size as int) + 3 <= usize::MAX
    &&& joint_total(grid_size as int) <= usize::MAX
}

/// The hubs of a demo at their start.
fn build_hubs<S: Scalar>(scene: DemoScene, grid_size: usize) -> (bodies: Vec<AffineBody<S>>)
    requires
        grid_size >= 2,
        fits(grid_size),
    ensures
        bodies@ == Seq::new(
            hub_total(grid_size as int) as nat,
            |i: int| initial_hub::<S>(scene, grid_size, i),
        ),
{
    let ghost n = grid_size as int;
    let rest_points = hub_rest_points::<S>();
    let mut bodies: Vec<AffineBody<S>> = Vec::new();
    let mut row: usize = 0;
    while row < grid_size
        invariant
            row <= grid_size,
            n == grid_size,
            grid_size >= 2,
            rest_points == hub_rest_points::<S>(),
            bodies@ == Seq::new((row * n) as nat, |i: int| initial_hub::<S>(scene, grid_size, i)),
        decreases grid_size - row,
    {
        proof {
            assert((row + 1) * n == row * n + n) by (nonlinear_arith);
            assert(row * n >= 0) by (nonlinear_arith)
                requires
                    row >= 0,
                    n >= 0,
            ;
        }
        let mut column: usize = 0;
        while column < grid_size
            invariant
                column <= grid_size,
                row < grid_size,
                row * n >= 0,
                n == grid_size,
                grid_size >= 2,
                rest_points == hub_rest_points::<S>(),
                bodies@ == Seq::new(
                    (row * n + column) as nat,
                    |i: int| initial_hub::<S>(scene, grid_size, i),
                ),
            decreases grid_size - column,
        {
            proof {
                lemma_row_index(n, n, row as int, column as int);
            }
            let position = place_node(scene, grid_size, row, column);
            let fixed = is_pinned(scene, grid_size, row, column);
            bodies.push(AffineBody::new(BodyKind::Hub { fixed }, rest_points, position, fixed));
            column = column + 1;
        }
        row = row + 1;
    }
    bodies
}

/// What a net under construction holds when its first `rods` rods are in place.
pub open spec fn rods_in_place<S: Scalar>(
    bodies: Seq<AffineBody<S>>,
    joints: Seq<BallJoint<S>>,
    scene: DemoScene,
    grid_size: usize,
    rods: int,
) -> bool {
    let n = grid_size as int;
    &&& bodies == Seq::new(
        (hub_total(n) + rods) as nat,
        |i: int| initial_body::<S>(scene, grid_size, i),
    )
    &&& joints == Seq::new((2 * rods) as nat, |joint: int| net_joint::<S>(n, joint))
}

/// The bodies and joints of the net of a demo.
pub fn build_net<S: Scalar>(scene: DemoScene, grid_size: usize) -> (result: (
    Vec<AffineBody<S>>,
    Vec<BallJoint<S>>,
))
    requires
        grid_size >= 2,
        fits(grid_size),
    ensures
        rods_in_place(
            result.0@,
            result.1@,
            scene,
            grid_size,
            rod_total(grid_size as int),
        ),
{
    let ghost n = grid_size as int;
    proof {
        lemma_counts(n);
    }
    let mut bodies = build_hubs(scene, grid_size);
    let mut joints: Vec<BallJoint<S>> = Vec::new();
    proof {
        assert(bodies@ =~= Seq::new(
            (hub_total(n) + 0) as nat,
            |i: int| initial_body::<S>(scene, grid_size, i),
        ));
        assert(joints@ =~= Seq::new(0, |joint: int| net_joint::<S>(n, joint)));
    }
    let mut row: usize = 0;
    while row < grid_size
        invariant
            row <= grid_size,
            n == grid_size,
            grid_size >= 2,
            fits(grid_size),
            rods_in_place(bodies@, joints@, scene, grid_size, row * (n - 1)),
        decreases grid_size - row,
    {
        proof {
            assert((row + 1) * (n - 1) == row * (n - 1) + (n - 1)) by (nonlinear_arith);
        }
        let mut column: usize = 0;
        while column < grid_size - 1
            invariant
                column <= grid_size - 1,
                row < grid_size,
                n == grid_size,
                grid_size >= 2,
                fits(grid_size),
                rods_in_place(bodies@, joints@, scene, grid_size, row * (n - 1) + column),
            decreases grid_size - column,
        {
            let ghost rod = row * (n - 1) + column;
            proof {
                lemma_counts(n);
                lemma_row_index(n - 1, n, row as int, column as int);
                lemma_row_index(n, n, row as int, column as int);
                lemma_row_index(n, n, row as int, column + 1);
                assert(rod == horizontal_rod_at(n, row as int, column as int));
                assert(start_hub(n, rod) == hub_at(n, row as int, column as int));
                assert(end_hub(n, rod) == hub_at(n, row as int, column + 1));
            }
            let start: usize = row * grid_size + column;
            let ghost bodies_before = bodies@;
            let ghost joints_before = joints@;
            add_rod(
                &mut bodies,
                &mut joints,
                start,
                start + 1,
                place_node(scene, grid_size, row, column),
                place_node(scene, grid_size, row, column + 1),
            );
            proof {
                lemma_rod_added(
                    bodies_before,
                    joints_before,
                    bodies@,
                    joints@,
                    scene,
                    grid_size,
                    rod,
                );
            }
            column = column + 1;
        }
        row = row + 1;
    }
    let mut row: usize = 0;
    while row < grid_size - 1
        invariant
            row <= grid_size - 1,
            n == grid_size,
            grid_size >= 2,
            fits(grid_size),
            rods_in_place(bodies@, joints@, scene, grid_size, horizontal_total(n) + row * n),
        decreases grid_size - row,
    {
        proof {
            assert((row + 1) * n == row * n + n) by (nonlinear_arith);
        }
        let mut column: usize = 0;
        while column < grid_size
            invariant
                column <= grid_size,
                row < grid_size - 1,
                n == grid_size,
                grid_size >= 2,
                fits(grid_size),
                rods_in_place(
                    bodies@,
                    joints@,
                    scene,
                    grid_size,
                    horizontal_total(n) + row * n + column,
                ),
            decreases grid_size - column,
        {
            let ghost rod = horizontal_total(n) + row * n + column;
            proof {
                lemma_counts(n);
                lemma_row_index(n, n - 1, row as int, column as int);
                lemma_row_index(n, n, row as int, column as int);
                assert((row + 1) * n == row * n + n) by (nonlinear_arith);
                lemma_row_index(n, n, row + 1, column as int);
                assert(rod == vertical_rod_at(n, row as int, column as int));
                assert(start_hub(n, rod) == hub_at(n, row as int, column as int));
                assert(end_hub(n, rod) == hub_at(n, row + 1, column as int));
            }
            let start: usize = row * grid_size + column;
            let ghost bodies_before = bodies@;
            let ghost joints_before = joints@;
            add_rod(
                &mut bodies,
                &mut joints,
                start,
                start + grid_size,
                place_node(scene, grid_size, row, column),
                place_node(scene, grid_size, row + 1, column),
            );
            proof {
                lemma_rod_added(
                    bodies_before,
                    joints_before,
                    bodies@,
                    joints@,
                    scene,
                    grid_size,
                    rod,
                );
            }
            column = column + 1;
        }
        row = row + 1;
    }
    (bodies, joints)
}

/// Adding the next rod of a net and its joints puts one more rod in place.
proof fn lemma_rod_added<S: Scalar>(
    bodies: Seq<AffineBody<S>>,
    joints: Seq<BallJoint<S>>,
    new_bodies: Seq<AffineBody<S>>,
    new_joints: Seq<BallJoint<S>>,
    scene: DemoScene,
    grid_size: usize,
    rod: int,
)
    requires
        grid_size >= 2,
        fits(grid_size),
        0 <= rod < rod_total(grid_size as int),
        rods_in_place(bodies, joints, scene, grid_size, rod),
        new_bodies == bodies.push(initial_rod(scene, grid_size, rod)),
        new_joints == joints.push(
            BallJoint {
                a: Attachment { body: bodies.len() as usize, weights: rod_start() },
                b: Attachment {
                    body: start_hub(grid_size as int, rod) as usize,
                    weights: hub_center(),
                },
            },
        ).push(
            BallJoint {
                a: Attachment { body: bodies.len() as usize, weights: rod_end() },
                b: Attachment {
                    body: end_hub(grid_size as int, rod) as usize,
                    weights: hub_center(),
                },
            },
        ),
    ensures
        rods_in_place(new_bodies, new_joints, scene, grid_size, rod + 1),
{
    let n = grid_size as int;
    lemma_counts(n);
    assert(new_bodies =~= Seq::new(
        (hub_total(n) + rod + 1) as nat,
        |i: int| initial_body::<S>(scene, grid_size, i),
    ));
    assert(new_joints =~= Seq::new(
        (2 * (rod + 1)) as nat,
        |joint: int| net_joint::<S>(n, joint),
    ));
}

} // verus!
