//! What a rigid-body engine needs to build a demo: its actors, which of them are joined, and
//! which of them collide.

use crate::body::{
    ball_rest_points, hub_center, hub_rest_points, rod_end, rod_start, AffineBody, BodyKind,
    ControlPoints,
};
use crate::constants::{
    ball_radius, cylinder_radius, grid_spacing, hub_radius, rod_length_factor, rod_thickness,
};
use crate::cylinder::CylinderCollider;
use crate::field::{
    exact, lemma_one, lemma_parts, lemma_product_associate, lemma_product_commute, lemma_quotient,
    lemma_undo,
};
use crate::grid::{
    end_hub, horizontal_rod_at, horizontal_total, hub_at, hub_total, lemma_counts, lemma_row_index,
    net_total, rod_total, start_hub, vertical_rod_at,
};
use crate::net::{
    ball_position, ball_total, build_cylinder, cylinder_length, cylinder_span, fits, hub_position,
    initial_body, initial_cylinder, is_pinned, net_joint, net_joints, pinned, place_ball, place_node, turned_rod_points,
};
use crate::rotation_laws::lemma_exchange_pairs;
use crate::scalar::{half, one, zero, Scalar};
use crate::scene::DemoScene;
use crate::simulation::layout;
use crate::vector::Vec3;
use vstd::prelude::*;

verus! {

/// The shape of an actor.
#[derive(Clone, Copy, PartialEq, Eq, Structural, Debug)]
pub enum ActorShape {
    Hub,
    Rod,
    Ball,
}

/// An actor of a demo.
#[derive(Clone, Copy)]
pub struct ActorPlan<S> {
    pub shape: ActorShape,
    /// Whether the actor never moves.
    pub fixed: bool,
    pub position: Vec3<S>,
    /// Where the x axis of the actor points.
    pub direction: Vec3<S>,
}

/// A rod and the hubs at its ends.
#[derive(Clone, Copy, PartialEq, Eq, Structural, Debug)]
pub struct RodConnection {
    pub rod: usize,
    pub start_hub: usize,
    pub end_hub: usize,
}

/// The actors and connections of a demo, and the cylinder that it has beside them.
pub struct WorldPlan<S> {
    pub actors: Vec<ActorPlan<S>>,
    pub connections: Vec<RodConnection>,
    pub cylinder: Option<CylinderCollider<S>>,
}

/// The hub with the given number.
pub open spec fn hub_actor<S: Scalar>(scene: DemoScene, grid_size: usize, hub: int) -> ActorPlan<S> {
    let n = grid_size as int;
    ActorPlan {
        shape: ActorShape::Hub,
        fixed: pinned(scene, n, hub / n, hub % n),
        position: hub_position(scene, grid_size, hub),
        direction: Vec3::x_unit(),
    }
}

/// A rod between two points: halfway between them, along their line.
#[verifier::allow_in_spec]
pub fn rod_actor_between<S: Scalar>(start: Vec3<S>, end: Vec3<S>) -> (result: ActorPlan<S>)
    returns
        (ActorPlan::<S> {
            shape: ActorShape::Rod,
            fixed: false,
            position: start.plus(end).scaled(half()),
            direction: end.minus(start).normal(),
        }),
{
    ActorPlan {
        shape: ActorShape::Rod,
        fixed: false,
        position: start.add(end).scale(half()),
        direction: end.sub(start).normalize(),
    }
}

/// The actor with the given number: hubs, then horizontal rods, then vertical rods, then
/// balls.
pub open spec fn actor_of<S: Scalar>(
    scene: DemoScene,
    grid_size: usize,
    number: int,
) -> ActorPlan<S> {
    let n = grid_size as int;
    if number < hub_total(n) {
        hub_actor(scene, grid_size, number)
    } else if number < net_total(n) {
        rod_actor_between(
            hub_position(scene, grid_size, start_hub(n, number - hub_total(n))),
            hub_position(scene, grid_size, end_hub(n, number - hub_total(n))),
        )
    } else {
        ActorPlan {
            shape: ActorShape::Ball,
            fixed: false,
            position: ball_position(number - net_total(n)),
            direction: Vec3::x_unit(),
        }
    }
}

/// The connection of the rod with the given number.
pub open spec fn connection_of(n: int, rod: int) -> RodConnection {
    RodConnection {
        rod: (hub_total(n) + rod) as usize,
        start_hub: start_hub(n, rod) as usize,
        end_hub: end_hub(n, rod) as usize,
    }
}

/// What a world under construction holds when its first `rods` rods are in place.
pub open spec fn world_in_place<S: Scalar>(
    actors: Seq<ActorPlan<S>>,
    connections: Seq<RodConnection>,
    scene: DemoScene,
    grid_size: usize,
    rods: int,
) -> bool {
    let n = grid_size as int;
    &&& actors == Seq::new(
        (hub_total(n) + rods) as nat,
        |i: int| actor_of::<S>(scene, grid_size, i),
    )
    &&& connections == Seq::new(rods as nat, |rod: int| connection_of(n, rod))
}

proof fn lemma_rod_planned<S: Scalar>(
    actors: Seq<ActorPlan<S>>,
    connections: Seq<RodConnection>,
    new_actors: Seq<ActorPlan<S>>,
    new_connections: Seq<RodConnection>,
    scene: DemoScene,
    grid_size: usize,
    rod: int,
)
    requires
        grid_size >= 2,
        fits(grid_size),
        0 <= rod < rod_total(grid_size as int),
        world_in_place(actors, connections, scene, grid_size, rod),
        new_actors == actors.push(
            actor_of(scene, grid_size, hub_total(grid_size as int) + rod),
        ),
        new_connections == connections.push(connection_of(grid_size as int, rod)),
    ensures
        world_in_place(new_actors, new_connections, scene, grid_size, rod + 1),
{
    let n = grid_size as int;
    lemma_counts(n);
    assert(new_actors =~= Seq::new(
        (hub_total(n) + rod + 1) as nat,
        |i: int| actor_of::<S>(scene, grid_size, i),
    ));
    assert(new_connections =~= Seq::new(
        (rod + 1) as nat,
        |rod: int| connection_of(n, rod),
    ));
}

fn plan_rod<S: Scalar>(
    plan: &mut WorldPlan<S>,
    start_hub: usize,
    end_hub: usize,
    start: Vec3<S>,
    end: Vec3<S>,
)
    ensures
        final(plan).actors@ == old(plan).actors@.push(rod_actor_between(start, end)),
        final(plan).connections@ == old(plan).connections@.push(
            RodConnection { rod: old(plan).actors@.len() as usize, start_hub, end_hub },
        ),
        final(plan).cylinder == old(plan).cylinder,
{
    let rod: usize = plan.actors.len();
    plan.actors.push(rod_actor_between(start, end));
    plan.connections.push(RodConnection { rod, start_hub, end_hub });
}

fn plan_hubs<S: Scalar>(scene: DemoScene, grid_size: usize) -> (plan: WorldPlan<S>)
    requires
        grid_size >= 2,
        fits(grid_size),
    ensures
        world_in_place(plan.actors@, plan.connections@, scene, grid_size, 0),
        plan.cylinder == initial_cylinder::<S>(scene, grid_size),
{
    let ghost n = grid_size as int;
    proof {
        lemma_counts(n);
    }
    let mut actors: Vec<ActorPlan<S>> = Vec::new();
    let mut row: usize = 0;
    let mut column: usize = 0;
    let ghost mut hub: int = 0;
    while row < grid_size
        invariant
            row <= grid_size,
            column < grid_size,
            row == grid_size ==> column == 0,
            n == grid_size,
            grid_size >= 2,
            hub == row * n + column,
            actors@ == Seq::new(hub as nat, |i: int| actor_of::<S>(scene, grid_size, i)),
        decreases grid_size - row, grid_size - column,
    {
        proof {
            lemma_row_index(n, n, row as int, column as int);
            assert((row + 1) * n == row * n + n) by (nonlinear_arith);
        }
        actors.push(
            ActorPlan {
                shape: ActorShape::Hub,
                fixed: is_pinned(scene, grid_size, row, column),
                position: place_node(scene, grid_size, row, column),
                direction: Vec3::unit_x(),
            },
        );
        proof {
            assert(actors@ =~= Seq::new(
                (hub + 1) as nat,
                |i: int| actor_of::<S>(scene, grid_size, i),
            ));
            hub = hub + 1;
        }
        if column + 1 < grid_size {
            column = column + 1;
        } else {
            column = 0;
            row = row + 1;
        }
    }
    let connections: Vec<RodConnection> = Vec::new();
    proof {
        assert(actors@ =~= Seq::new(
            (hub_total(n) + 0) as nat,
            |i: int| actor_of::<S>(scene, grid_size, i),
        ));
        assert(connections@ =~= Seq::new(0, |rod: int| connection_of(n, rod)));
    }
    WorldPlan { actors, connections, cylinder: build_cylinder(scene, grid_size) }
}

/// The actors and connections of a demo, its bodies in the order of the simulation, and its
/// cylinder where it has one.
pub fn create_world_plan<S: Scalar>(scene: DemoScene, grid_size: usize) -> (plan: WorldPlan<S>)
    requires
        grid_size >= 2,
        fits(grid_size),
    ensures
        plan.actors@ == Seq::new(
            (net_total(grid_size as int) + ball_total(scene)) as nat,
            |i: int| actor_of::<S>(scene, grid_size, i),
        ),
        plan.connections@ == Seq::new(
            rod_total(grid_size as int) as nat,
            |rod: int| connection_of(grid_size as int, rod),
        ),
        plan.cylinder == initial_cylinder::<S>(scene, grid_size),
        plan.cylinder is Some <==> scene == DemoScene::CylinderDrape,
{
    let ghost n = grid_size as int;
    proof {
        lemma_counts(n);
    }
    let mut plan = plan_hubs::<S>(scene, grid_size);
    let mut row: usize = 0;
    while row < grid_size
        invariant
            row <= grid_size,
            n == grid_size,
            plan.cylinder == initial_cylinder::<S>(scene, grid_size),
            grid_size >= 2,
            fits(grid_size),
            world_in_place(plan.actors@, plan.connections@, scene, grid_size, row * (n - 1)),
        decreases grid_size - row,
    {
        proof {
            assert((row + 1) * (n - 1) == row * (n - 1) + (n - 1)) by (nonlinear_arith);
        }
        let mut column: usize = 0;
        while column < grid_size - 1
            invariant
                column <= grid_size - 1,
                row < grid_size,
                n == grid_size,
                plan.cylinder == initial_cylinder::<S>(scene, grid_size),
                grid_size >= 2,
                fits(grid_size),
                world_in_place(
                    plan.actors@,
                    plan.connections@,
                    scene,
                    grid_size,
                    row * (n - 1) + column,
                ),
            decreases grid_size - column,
        {
            let ghost rod = row * (n - 1) + column;
            proof {
                lemma_counts(n);
                lemma_row_index(n - 1, n, row as int, column as int);
                lemma_row_index(n, n, row as int, column as int);
                lemma_row_index(n, n, row as int, column + 1);
                assert(rod == horizontal_rod_at(n, row as int, column as int));
                assert(start_hub(n, rod) == hub_at(n, row as int, column as int));
                assert(end_hub(n, rod) == hub_at(n, row as int, column + 1));
            }
            let start: usize = row * grid_size + column;
            let ghost before = plan;
            plan_rod(
                &mut plan,
                start,
                start + 1,
                place_node(scene, grid_size, row, column),
                place_node(scene, grid_size, row, column + 1),
            );
            proof {
                lemma_rod_planned(
                    before.actors@,
                    before.connections@,
                    plan.actors@,
                    plan.connections@,
                    scene,
                    grid_size,
                    rod,
                );
            }
            column = column + 1;
        }
        row = row + 1;
    }
    let mut row: usize = 0;
    while row < grid_size - 1
        invariant
            row <= grid_size - 1,
            n == grid_size,
            plan.cylinder == initial_cylinder::<S>(scene, grid_size),
            grid_size >= 2,
            fits(grid_size),
            world_in_place(
                plan.actors@,
                plan.connections@,
                scene,
                grid_size,
                horizontal_total(n) + row * n,
            ),
        decreases grid_size - row,
    {
        proof {
            assert((row + 1) * n == row * n + n) by (nonlinear_arith);
        }
        let mut column: usize = 0;
        while column < grid_size
            invariant
                column <= grid_size,
                row < grid_size - 1,
                n == grid_size,
                plan.cylinder == initial_cylinder::<S>(scene, grid_size),
                grid_size >= 2,
                fits(grid_size),
                world_in_place(
                    plan.actors@,
                    plan.connections@,
                    scene,
                    grid_size,
                    horizontal_total(n) + row * n + column,
                ),
            decreases grid_size - column,
        {
            let ghost rod = horizontal_total(n) + row * n + column;
            proof {
                lemma_counts(n);
                lemma_row_index(n, n - 1, row as int, column as int);
                lemma_row_index(n, n, row as int, column as int);
                assert((row + 1) * n == row * n + n) by (nonlinear_arith);
                lemma_row_index(n, n, row + 1, column as int);
                assert(rod == vertical_rod_at(n, row as int, column as int));
                assert(start_hub(n, rod) == hub_at(n, row as int, column as int));
                assert(end_hub(n, rod) == hub_at(n, row + 1, column as int));
            }
            let start: usize = row * grid_size + column;
            let ghost before = plan;
            plan_rod(
                &mut plan,
                start,
                start + grid_size,
                place_node(scene, grid_size, row, column),
                place_node(scene, grid_size, row + 1, column),
            );
            proof {
                lemma_rod_planned(
                    before.actors@,
                    before.connections@,
                    plan.actors@,
                    plan.connections@,
                    scene,
                    grid_size,
                    rod,
                );
            }
            column = column + 1;
        }
        row = row + 1;
    }
    if scene == DemoScene::FallingBalls {
        let mut ball: usize = 0;
        while ball < 3
            invariant
                ball <= 3,
                n == grid_size,
                plan.cylinder == initial_cylinder::<S>(scene, grid_size),
                hub_total(n) <= net_total(n),
                hub_total(n) >= 0,
                plan.actors@ == Seq::new(
                    (net_total(n) + ball) as nat,
                    |i: int| actor_of::<S>(scene, grid_size, i),
                ),
                plan.connections@ == Seq::new(
                    rod_total(n) as nat,
                    |rod: int| connection_of(n, rod),
                ),
            decreases 3 - ball,
        {
            plan.actors.push(
                ActorPlan {
                    shape: ActorShape::Ball,
                    fixed: false,
                    position: place_ball(ball),
                    direction: Vec3::unit_x(),
                },
            );
            ball = ball + 1;
        }
    }
    plan
}

/// The kind of body that a shape stands for.
pub open spec fn shape_of(scene: DemoScene, n: int, number: int) -> ActorShape {
    match layout(scene, n, number).0 {
        BodyKind::Hub { .. } => ActorShape::Hub,
        BodyKind::Rod => ActorShape::Rod,
        BodyKind::Ball => ActorShape::Ball,
    }
}

/// The points of the body that an actor stands for, about its place.
pub open spec fn actor_offsets<S: Scalar>(actor: ActorPlan<S>) -> ControlPoints<S> {
    match actor.shape {
        ActorShape::Hub => hub_rest_points(),
        ActorShape::Rod => turned_rod_points(actor.direction),
        ActorShape::Ball => ball_rest_points(),
    }
}

/// Actors and bodies have the same numbers: the actor of a number is a hub, a rod or a ball,
/// and pinned or free, as the body of that number is, and the body is built where the actor
/// stands, a rod along the actor's direction.
pub proof fn lemma_actors_match_bodies<S: Scalar>(scene: DemoScene, grid_size: usize, number: int)
    requires
        grid_size >= 2,
        0 <= number < net_total(grid_size as int) + ball_total(scene),
    ensures
        actor_of::<S>(scene, grid_size, number).shape == shape_of(
            scene,
            grid_size as int,
            number,
        ),
        actor_of::<S>(scene, grid_size, number).fixed == layout(
            scene,
            grid_size as int,
            number,
        ).1,
        initial_body::<S>(scene, grid_size, number) == AffineBody::new(
            layout(scene, grid_size as int, number).0,
            actor_offsets(actor_of::<S>(scene, grid_size, number)),
            actor_of::<S>(scene, grid_size, number).position,
            actor_of::<S>(scene, grid_size, number).fixed,
        ),
{
}

/// The engine joins a rod to the hubs that the joints of the simulation hold it at: the first
/// to its start, the second to its end.
pub proof fn lemma_connections_match_joints<S: Scalar>(n: int, rod: int)
    requires
        n >= 2,
        0 <= rod < rod_total(n),
    ensures
        ({
            let connection = connection_of(n, rod);
            let start = net_joints::<S>(n)[2 * rod];
            let end = net_joints::<S>(n)[2 * rod + 1];
            &&& connection.rod == start.a.body && connection.rod == end.a.body
            &&& connection.start_hub == start.b.body
            &&& connection.end_hub == end.b.body
            &&& start.a.weights == rod_start::<S>()
            &&& end.a.weights == rod_end::<S>()
            &&& start.b.weights == hub_center::<S>()
            &&& end.b.weights == hub_center::<S>()
        }),
{
    lemma_counts(n);
    assert(net_joints::<S>(n)[2 * rod] == net_joint::<S>(n, 2 * rod));
    assert(net_joints::<S>(n)[2 * rod + 1] == net_joint::<S>(n, 2 * rod + 1));
}

/// Half the length of the straight part of the capsule that stands for the cylinder: its ends
/// are round.
pub fn capsule_half_height<S: Scalar>(grid_size: usize) -> (result: S)
    ensures
        result == cylinder_span::<S>(grid_size).times(half()).minus(cylinder_radius()),
        exact::<S>() ==> result.plus(S::single_fraction(70, 100)).plus(
            result.plus(S::single_fraction(70, 100)),
        ) == initial_cylinder::<S>(DemoScene::CylinderDrape, grid_size)->0.length,
{
    proof {
        if exact::<S>() {
            lemma_undo(cylinder_span::<S>(grid_size).times(half()), cylinder_radius::<S>());
            lemma_parts(cylinder_span::<S>(grid_size));
        }
    }
    cylinder_length::<S>(grid_size).mul(half()).sub(cylinder_radius())
}

/// The volume of a sphere. The factor between a square and its circle is the one that single
/// precision holds.
#[verifier::allow_in_spec]
pub fn sphere_volume<S: Scalar>(radius: S) -> (result: S)
    returns
        S::fraction(4, 3).times(S::single_fraction(13176795, 4194304)).times(
            radius.times(radius).times(radius),
        ),
{
    S::from_fraction(4, 3).mul(S::from_single_fraction(13176795, 4194304)).mul(
        radius.mul(radius).mul(radius),
    )
}

/// How long the box of a rod is.
#[verifier::allow_in_spec]
pub fn rod_box_length<S: Scalar>() -> (result: S)
    returns
        grid_spacing::<S>().times(rod_length_factor()),
{
    grid_spacing::<S>().mul(rod_length_factor())
}

/// The volume of an actor: a sphere, or the box of a rod.
pub open spec fn actor_volume<S: Scalar>(shape: ActorShape) -> S {
    match shape {
        ActorShape::Hub => sphere_volume(hub_radius()),
        ActorShape::Rod => rod_box_length::<S>().times(rod_thickness()).times(rod_thickness()),
        ActorShape::Ball => sphere_volume(ball_radius()),
    }
}

/// In exact arithmetic a sphere that is a number of times as wide holds the third power of
/// that number as much, and a sphere of radius one holds four thirds of the factor between a
/// square and its circle.
pub proof fn lemma_sphere_volume<S: Scalar>(radius: S, factor: S)
    requires
        exact::<S>(),
    ensures
        sphere_volume(radius.times(factor)) == sphere_volume(radius).times(
            factor.times(factor).times(factor),
        ),
        sphere_volume(one::<S>()) == S::fraction(4, 3).times(
            S::single_fraction(13176795, 4194304),
        ),
{
    let unit = S::fraction(4, 3).times(S::single_fraction(13176795, 4194304));
    lemma_exchange_pairs(radius, factor, radius, factor);
    lemma_exchange_pairs(radius.times(radius), factor.times(factor), radius, factor);
    lemma_product_associate(
        unit,
        radius.times(radius).times(radius),
        factor.times(factor).times(factor),
    );
    lemma_one(one::<S>());
    lemma_one(unit);
}

/// In exact arithmetic a hub holds what a sphere of radius one holds, times the third power of
/// 0.075, and a ball as much times the third power of 0.34; a rod holds what a box holds that
/// is 0.055 thick both ways and 0.78 of 0.55 long.
pub proof fn lemma_actor_volumes<S: Scalar>()
    requires
        exact::<S>(),
    ensures
        ({
            let hub = S::single_fraction(75, 1000);
            let ball = S::single_fraction(34, 100);
            let thick = S::single_fraction(55, 1000);
            let long = S::single_fraction(78, 100).times(S::fraction(55, 100));
            &&& actor_volume::<S>(ActorShape::Hub) == sphere_volume(one::<S>()).times(
                hub.times(hub).times(hub),
            )
            &&& actor_volume::<S>(ActorShape::Ball) == sphere_volume(one::<S>()).times(
                ball.times(ball).times(ball),
            )
            &&& actor_volume::<S>(ActorShape::Rod) == thick.times(thick).times(long)
        }),
{
    let thick = S::single_fraction(55, 1000);
    let long = rod_box_length::<S>();
    lemma_sphere_volume(one::<S>(), S::single_fraction(75, 1000));
    lemma_sphere_volume(one::<S>(), S::single_fraction(34, 100));
    lemma_one(S::single_fraction(75, 1000));
    lemma_one(S::single_fraction(34, 100));
    lemma_product_commute(S::single_fraction(78, 100), S::fraction(55, 100));
    lemma_product_associate(long, thick, thick);
    lemma_product_commute(long, thick.times(thick));
}

/// The density that gives an actor its mass.
pub fn actor_density<S: Scalar>(shape: ActorShape) -> (result: S)
    ensures
        result == (match shape {
            ActorShape::Hub => S::fraction(18, 100).over(sphere_volume(hub_radius())),
            ActorShape::Rod => S::fraction(24, 100).over(
                rod_box_length::<S>().times(rod_thickness()).times(rod_thickness()),
            ),
            ActorShape::Ball => S::fraction(12, 10).over(sphere_volume(ball_radius())),
        }),
        exact::<S>() && actor_volume::<S>(shape) != zero::<S>() ==> result.times(
            actor_volume(shape),
        ) == (match shape {
            ActorShape::Hub => S::fraction(18, 100),
            ActorShape::Rod => S::fraction(24, 100),
            ActorShape::Ball => S::fraction(12, 10),
        }),
{
    proof {
        if exact::<S>() && actor_volume::<S>(shape) != zero::<S>() {
            lemma_quotient(S::fraction(18, 100), actor_volume::<S>(shape));
            lemma_quotient(S::fraction(24, 100), actor_volume::<S>(shape));
            lemma_quotient(S::fraction(12, 10), actor_volume::<S>(shape));
        }
    }
    match shape {
        ActorShape::Hub => S::from_fraction(18, 100).div(sphere_volume(hub_radius())),
        ActorShape::Rod => S::from_fraction(24, 100).div(
            rod_box_length::<S>().mul(rod_thickness()).mul(rod_thickness()),
        ),
        ActorShape::Ball => S::from_fraction(12, 10).div(sphere_volume(ball_radius())),
    }
}

/// What an actor is to the other actors.
#[derive(Clone, Copy, PartialEq, Eq, Structural, Debug)]
pub enum CollisionLayer {
    /// Hubs and rods.
    Net,
    /// The cylinder.
    Collider,
    /// Falling balls.
    Ball,
}

/// The layer of an actor.
#[verifier::allow_in_spec]
pub fn collision_layer(shape: ActorShape) -> (result: CollisionLayer)
    returns
        (match shape {
            ActorShape::Hub | ActorShape::Rod => CollisionLayer::Net,
            ActorShape::Ball => CollisionLayer::Ball,
        }),
{
    match shape {
        ActorShape::Hub | ActorShape::Rod => CollisionLayer::Net,
        ActorShape::Ball => CollisionLayer::Ball,
    }
}

/// Whether an actor of one layer takes part in collisions with actors of another. The net
/// does not collide with itself.
#[verifier::allow_in_spec]
pub fn layer_accepts(layer: CollisionLayer, other: CollisionLayer) -> (result: bool)
    returns
        (match layer {
            CollisionLayer::Net => other == CollisionLayer::Collider || other
                == CollisionLayer::Ball,
            CollisionLayer::Collider => other == CollisionLayer::Net,
            CollisionLayer::Ball => other == CollisionLayer::Net || other == CollisionLayer::Ball,
        }),
{
    match layer {
        CollisionLayer::Net => other == CollisionLayer::Collider || other == CollisionLayer::Ball,
        CollisionLayer::Collider => other == CollisionLayer::Net,
        CollisionLayer::Ball => other == CollisionLayer::Net || other == CollisionLayer::Ball,
    }
}

/// Collisions are mutual: an actor is accepted by every actor that it accepts.
pub proof fn lemma_collisions_mutual(layer: CollisionLayer, other: CollisionLayer)
    ensures
        layer_accepts(layer, other) == layer_accepts(other, layer),
{
}

/// Of the actors of one layer only balls collide with one another, and of actors of different
/// layers those of which one belongs to the net. So two hubs or rods pass through each other, a
/// ball meets everything but the cylinder, and the cylinder meets hubs and rods alone.
pub proof fn lemma_who_collides(layer: CollisionLayer, first: ActorShape, second: ActorShape)
    ensures
        layer_accepts(collision_layer(first), collision_layer(second)) <==> first
            == ActorShape::Ball || second == ActorShape::Ball,
        layer_accepts(CollisionLayer::Collider, collision_layer(first)) <==> first
            != ActorShape::Ball,
        layer_accepts(layer, layer) <==> layer == CollisionLayer::Ball,
        layer_accepts(layer, CollisionLayer::Net) <==> layer != CollisionLayer::Net,
{
}

/// Whether two actors collide, from what each is and what each accepts, as bits.
pub fn simulation_filter(
    first_layer: u32,
    first_mask: u32,
    second_layer: u32,
    second_mask: u32,
) -> (result: bool)
    ensures
        result == (first_layer & second_mask != 0 && second_layer & first_mask != 0),
{
    let first_accepted = first_layer & second_mask != 0;
    let second_accepted = second_layer & first_mask != 0;
    first_accepted && second_accepted
}

/// The number of values that make up a pose: three of its place and four of its rotation.
pub const POSE_LEN: usize = 7;

/// A pose as an engine reports it.
#[derive(Clone, Copy)]
pub struct ReportedPose<S> {
    pub position: Vec3<S>,
    pub x: S,
    pub y: S,
    pub z: S,
    pub w: S,
    /// Whether the rotation is finite and long enough to be made a unit one.
    pub rotation_valid: bool,
}

/// Whether four values are a rotation: finite, and not too short.
#[verifier::allow_in_spec]
pub fn rotation_is_valid<S: Scalar>(x: S, y: S, z: S, w: S) -> (result: bool)
    returns
        (x.finite() && y.finite() && z.finite() && w.finite() && S::fraction(
            1,
            1000000000000,
        ).below(x.times(x).plus(y.times(y)).plus(z.times(z)).plus(w.times(w)))),
{
    x.is_finite() && y.is_finite() && z.is_finite() && w.is_finite() && S::from_fraction(
        1,
        1000000000000,
    ).lt(x.mul(x).add(y.mul(y)).add(z.mul(z)).add(w.mul(w)))
}

/// The pose that starts at a place in a list of values.
pub open spec fn pose_at<S: Scalar>(packed: Seq<S>, start: int) -> ReportedPose<S> {
    ReportedPose {
        position: Vec3 { x: packed[start], y: packed[start + 1], z: packed[start + 2] },
        x: packed[start + 3],
        y: packed[start + 4],
        z: packed[start + 5],
        w: packed[start + 6],
        rotation_valid: rotation_is_valid(
            packed[start + 3],
            packed[start + 4],
            packed[start + 5],
            packed[start + 6],
        ),
    }
}

fn read_pose<S: Scalar>(packed: &[S], start: usize) -> (result: ReportedPose<S>)
    requires
        start + POSE_LEN <= packed@.len(),
    ensures
        result == pose_at(packed@, start as int),
{
    assert(packed@.len() == packed.len());
    let x = packed[start + 3];
    let y = packed[start + 4];
    let z = packed[start + 5];
    let w = packed[start + 6];
    ReportedPose {
        position: Vec3::new(packed[start], packed[start + 1], packed[start + 2]),
        x,
        y,
        z,
        w,
        rotation_valid: rotation_is_valid(x, y, z, w),
    }
}

/// The poses that a list of values holds; nothing where it holds none, or a part of one.
pub fn unpack_poses<S: Scalar>(packed: &[S]) -> (result: Option<Vec<ReportedPose<S>>>)
    ensures
        result is Some <==> packed@.len() > 0 && packed@.len() % (POSE_LEN as nat) == 0,
        result matches Some(poses) ==> poses@ == Seq::new(
            packed@.len() / (POSE_LEN as nat),
            |i: int| pose_at(packed@, POSE_LEN * i),
        ),
        result matches Some(poses) ==> 7 * poses@.len() == packed@.len(),
        result matches Some(poses) ==> forall|i: int|
            0 <= i < poses@.len() ==> ({
                let pose = #[trigger] poses@[i];
                let length = pose.x.times(pose.x).plus(pose.y.times(pose.y)).plus(
                    pose.z.times(pose.z),
                ).plus(pose.w.times(pose.w));
                &&& pose.position.x == packed@[7 * i]
                &&& pose.position.y == packed@[7 * i + 1]
                &&& pose.position.z == packed@[7 * i + 2]
                &&& pose.x == packed@[7 * i + 3]
                &&& pose.y == packed@[7 * i + 4]
                &&& pose.z == packed@[7 * i + 5]
                &&& pose.w == packed@[7 * i + 6]
                &&& pose.rotation_valid == (pose.x.finite() && pose.y.finite() && pose.z.finite()
                    && pose.w.finite() && S::fraction(1, 1000000000000).below(length))
            }),
{
    let len: usize = packed.len();
    if len == 0 || len % POSE_LEN != 0 {
        return None;
    }
    let count: usize = len / POSE_LEN;
    let mut poses: Vec<ReportedPose<S>> = Vec::with_capacity(count);
    let mut index: usize = 0;
    while index < count
        invariant
            index <= count,
            POSE_LEN * count == packed@.len(),
            packed@.len() <= usize::MAX,
            poses@ == Seq::new(index as nat, |i: int| pose_at(packed@, POSE_LEN * i)),
        decreases count - index,
    {
        let pose = read_pose(packed, POSE_LEN * index);
        poses.push(pose);
        index = index + 1;
    }
    Some(poses)
}

/// The number by which the browser build of an engine knows a demo.
pub fn scene_id(scene: DemoScene) -> (result: u32)
    ensures
        result == (match scene {
            DemoScene::JointGrid => 1u32,
            DemoScene::CylinderDrape => 2,
            DemoScene::FallingBalls => 3,
        }),
{
    match scene {
        DemoScene::JointGrid => 1,
        DemoScene::CylinderDrape => 2,
        DemoScene::FallingBalls => 3,
    }
}

/// Whether an engine that reports a status can be asked for poses.
pub fn engine_is_ready(status_code: u32) -> (result: bool)
    ensures
        result == (status_code == 1),
{
    status_code == 1
}

/// The status of an engine in words.
pub fn engine_status(status_code: u32) -> (result: &'static str)
    ensures
        result@ == (if status_code == 1 {
            "READY"@
        } else if status_code == 2 {
            "ERROR"@
        } else {
            "LOADING"@
        }),
{
    match status_code {
        1 => "READY",
        2 => "ERROR",
        _ => "LOADING",
    }
}

} // verus!
