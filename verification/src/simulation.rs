//! The simulation of a net: its state and its steps.

use crate::balls::{
    ball_passes, balls_in_place, lemma_ball_passes_move, project_ball_contact_passes,
};
use crate::body::{
    ball_rest_points, body_only_moved, lemma_only_moved_transitive, only_moved, AffineBody,
    BodyKind, ControlPoints,
};
use crate::constants::{
    default_fixed_hz, velocity_damping_at_default_hz, CONTACT_PASSES, COROTATED_ITERATIONS,
    DEFAULT_GRID_SIZE, POLAR_NEWTON_ITERATIONS,
};
use crate::cylinder::{
    bodies_cylinder_contacts, cylinder_contact, cylinder_contacts,
    project_cylinder_contact_passes_pass_major, project_cylinder_contacts_body_major,
    CylinderCollider,
};
use crate::gather::{hub_deltas, joint_residuals};
use crate::grid::{
    hub_count, hub_total, joint_total, lemma_counts, lemma_joint_is_neighbor, net_total,
};
use crate::joints::{
    bodies_joint_corrected, chunk_total, hub_delta_scales, prepare_direct_joint_solver,
    project_joint_constraints_direct, BallJoint, SolverScratch,
};
use crate::net::{
    ball_total, build_cylinder, build_net, fits, initial_bodies, initial_body, initial_cylinder,
    net_joint, net_joints, pinned, place_ball,
};
use crate::scalar::{zero, Scalar};
use crate::scene::DemoScene;
use crate::shapes::{bodies_shape_projected, hub_centers, project_corotated_shapes, rod_endpoints};
use crate::vector::Vec3;
use vstd::prelude::*;

verus! {

/// A net, its surroundings and its motion.
pub struct NetSimulation<S> {
    pub scene: DemoScene,
    pub grid_size: usize,
    pub bodies: Vec<AffineBody<S>>,
    pub previous_positions: Vec<ControlPoints<S>>,
    pub joints: Vec<BallJoint<S>>,
    pub cylinder: Option<CylinderCollider<S>>,
    pub ball_indices: Vec<usize>,
    pub solver_scratch: SolverScratch<S>,
    pub coefficient_dt_bits: u64,
    pub previous_velocity_scale: S,
}

/// What stays through the steps of a simulation.
#[verifier::ext_equal]
pub struct Setup<S> {
    pub scene: DemoScene,
    pub grid_size: usize,
    pub joints: Seq<BallJoint<S>>,
    pub cylinder: Option<CylinderCollider<S>>,
    pub balls: Seq<usize>,
}

/// What changes through the steps of a simulation.
#[verifier::ext_equal]
pub struct Motion<S> {
    pub bodies: Seq<AffineBody<S>>,
    pub previous: Seq<ControlPoints<S>>,
    pub residuals: Seq<Vec3<S>>,
    pub hubs: Seq<Vec3<S>>,
    pub scale: Seq<S>,
    pub chunk_min: Seq<Vec3<S>>,
    pub chunk_max: Seq<Vec3<S>>,
    pub dt_bits: u64,
    pub velocity_scale: S,
}

/// The variants of a step: the rounds of the closest rotation, whether the last of them does
/// without division, and whether a rod's centre and gradient share their sums.
pub struct Variant {
    pub polar_iterations: nat,
    pub division_free_final: bool,
    pub fused_geometry: bool,
}

/// The velocity that a body keeps over a step of length `dt`.
pub open spec fn damping<S: Scalar>(dt: S) -> S {
    velocity_damping_at_default_hz::<S>().power(dt.times(default_fixed_hz()))
}

pub fn velocity_damping_for_dt<S: Scalar>(dt: S) -> (result: S)
    ensures
        result == damping(dt),
{
    velocity_damping_at_default_hz::<S>().powf(dt.mul(default_fixed_hz()))
}

/// Bodies with the coefficients of a step of length `dt`.
pub open spec fn with_coefficients<S: Scalar>(
    bodies: Seq<AffineBody<S>>,
    dt: S,
) -> Seq<AffineBody<S>> {
    Seq::new(bodies.len(), |i: int| bodies[i].with_coefficients(dt))
}

/// The motion with the coefficients of a step of length `dt`, which are computed where the
/// last were those of another length.
pub open spec fn prepared<S: Scalar>(setup: Setup<S>, motion: Motion<S>, dt: S) -> Motion<S> {
    if motion.dt_bits == dt.bits() {
        motion
    } else {
        let bodies = with_coefficients(motion.bodies, dt);
        Motion {
            bodies,
            scale: hub_delta_scales(bodies, setup.joints, motion.scale.len()),
            dt_bits: dt.bits(),
            velocity_scale: damping(dt).over(dt),
            ..motion
        }
    }
}

/// The motion after the prediction with the given velocity scale.
pub open spec fn predicted<S: Scalar>(motion: Motion<S>, dt: S, velocity_scale: S) -> Motion<S> {
    Motion {
        bodies: Seq::new(
            motion.bodies.len(),
            |i: int| motion.bodies[i].predicted(motion.previous[i], dt, velocity_scale),
        ),
        previous: Seq::new(motion.bodies.len(), |i: int| motion.bodies[i].positions),
        ..motion
    }
}

/// The motion at the start of a step. The velocities are those of the step before, so the
/// prediction scales them by that step's length and damping.
pub open spec fn begun<S: Scalar>(setup: Setup<S>, motion: Motion<S>, dt: S) -> Motion<S> {
    predicted(prepared(setup, motion, dt), dt, motion.velocity_scale)
}

/// The motion after the shape projection.
pub open spec fn shaped<S: Scalar>(
    setup: Setup<S>,
    motion: Motion<S>,
    variant: Variant,
) -> Motion<S> {
    let n = setup.grid_size as int;
    let bodies = bodies_shape_projected(
        motion.bodies,
        n,
        variant.polar_iterations,
        variant.division_free_final,
        variant.fused_geometry,
    );
    Motion {
        bodies,
        hubs: hub_centers(bodies, n),
        residuals: rod_endpoints(bodies, n),
        ..motion
    }
}

/// The motion after the joint solve.
pub open spec fn jointed<S: Scalar>(setup: Setup<S>, motion: Motion<S>) -> Motion<S> {
    let n = setup.grid_size as int;
    Motion {
        bodies: bodies_joint_corrected(
            motion.bodies,
            motion.residuals,
            motion.hubs,
            motion.scale,
            n,
        ),
        residuals: joint_residuals(motion.residuals, motion.hubs, n),
        hubs: hub_deltas(motion.residuals, motion.hubs, motion.scale, n),
        ..motion
    }
}

/// The motion after the contacts of the demo.
pub open spec fn contacted<S: Scalar>(setup: Setup<S>, motion: Motion<S>) -> Motion<S> {
    match setup.scene {
        DemoScene::JointGrid => motion,
        DemoScene::CylinderDrape => Motion {
            bodies: bodies_cylinder_contacts(
                motion.bodies,
                motion.previous,
                setup.cylinder->0,
                CONTACT_PASSES as nat,
            ),
            ..motion
        },
        DemoScene::FallingBalls => {
            let (bodies, chunk_min, chunk_max) = ball_passes(
                motion.bodies,
                motion.chunk_min,
                motion.chunk_max,
                motion.previous,
                setup.balls,
                0,
            );
            Motion { bodies, chunk_min, chunk_max, ..motion }
        },
    }
}

/// The motion after `rounds` rounds of projections.
pub open spec fn projected<S: Scalar>(
    setup: Setup<S>,
    motion: Motion<S>,
    variant: Variant,
    rounds: nat,
) -> Motion<S>
    decreases rounds,
{
    if rounds == 0 {
        motion
    } else {
        projected(
            setup,
            contacted(setup, jointed(setup, shaped(setup, motion, variant))),
            variant,
            (rounds - 1) as nat,
        )
    }
}

/// The motion after a step of length `dt`.
pub open spec fn stepped<S: Scalar>(
    setup: Setup<S>,
    motion: Motion<S>,
    dt: S,
    variant: Variant,
) -> Motion<S> {
    projected(setup, begun(setup, motion, dt), variant, COROTATED_ITERATIONS as nat)
}

/// The kind of the body with the given number, and whether it is pinned.
pub open spec fn layout(scene: DemoScene, n: int, number: int) -> (BodyKind, bool) {
    if number < hub_total(n) {
        let fixed = pinned(scene, n, number / n, number % n);
        (BodyKind::Hub { fixed }, fixed)
    } else if number < net_total(n) {
        (BodyKind::Rod, false)
    } else {
        (BodyKind::Ball, false)
    }
}

/// Whether bodies are those of a demo, wherever they are.
pub open spec fn laid_out<S: Scalar>(
    scene: DemoScene,
    n: int,
    bodies: Seq<AffineBody<S>>,
) -> bool {
    &&& bodies.len() == net_total(n) + ball_total(scene)
    &&& forall|i: int|
        0 <= i < bodies.len() ==> ((#[trigger] bodies[i]).kind, bodies[i].fixed) == layout(
            scene,
            n,
            i,
        )
}

impl<S: Scalar> Setup<S> {
    /// Whether the joints, the cylinder and the balls are those of the demo.
    pub open spec fn well_formed(self) -> bool {
        let n = self.grid_size as int;
        &&& self.grid_size >= 2
        &&& fits(self.grid_size)
        &&& self.joints == net_joints::<S>(n)
        &&& self.cylinder == initial_cylinder::<S>(self.scene, self.grid_size)
        &&& self.balls == Seq::new(
            ball_total(self.scene) as nat,
            |i: int| (net_total(n) + i) as usize,
        )
    }
}

impl<S: Scalar> Motion<S> {
    /// Whether the bodies are those of the demo and every list is as long as they need.
    pub open spec fn well_formed(self, setup: Setup<S>) -> bool {
        let n = setup.grid_size as int;
        &&& laid_out(setup.scene, n, self.bodies)
        &&& self.previous.len() == self.bodies.len()
        &&& self.residuals.len() == joint_total(n)
        &&& self.hubs.len() == hub_total(n)
        &&& self.scale.len() == hub_total(n)
        &&& self.chunk_min.len() == chunk_total(self.bodies.len() as int)
        &&& self.chunk_max.len() == chunk_total(self.bodies.len() as int)
    }
}

impl<S: Scalar> NetSimulation<S> {
    /// What stays through the steps.
    pub open spec fn setup(self) -> Setup<S> {
        Setup {
            scene: self.scene,
            grid_size: self.grid_size,
            joints: self.joints@,
            cylinder: self.cylinder,
            balls: self.ball_indices@,
        }
    }

    /// What changes through the steps.
    pub open spec fn motion(self) -> Motion<S> {
        Motion {
            bodies: self.bodies@,
            previous: self.previous_positions@,
            residuals: self.solver_scratch.constraint_residual@,
            hubs: self.solver_scratch.hub_weighted_residual@,
            scale: self.solver_scratch.hub_delta_scale@,
            chunk_min: self.solver_scratch.contact_chunk_min@,
            chunk_max: self.solver_scratch.contact_chunk_max@,
            dt_bits: self.coefficient_dt_bits,
            velocity_scale: self.previous_velocity_scale,
        }
    }

    /// Whether the simulation is one of a demo.
    pub open spec fn well_formed(self) -> bool {
        self.setup().well_formed() && self.motion().well_formed(self.setup())
    }

    /// A demo of the default size at its start.
    pub fn new(scene: DemoScene) -> (result: Self)
        ensures
            result.well_formed(),
            result.scene == scene,
            result.grid_size == DEFAULT_GRID_SIZE,
            result.motion() == initial_motion::<S>(scene, DEFAULT_GRID_SIZE),
    {
        Self::with_grid_size(scene, DEFAULT_GRID_SIZE)
    }

    /// A demo with a net of the given size at its start.
    pub fn with_grid_size(scene: DemoScene, grid_size: usize) -> (result: Self)
        requires
            grid_size >= 2,
            fits(grid_size),
        ensures
            result.well_formed(),
            result.scene == scene,
            result.grid_size == grid_size,
            result.motion() == initial_motion::<S>(scene, grid_size),
    {
        let ghost n = grid_size as int;
        proof {
            lemma_counts(n);
        }
        let (mut bodies, joints) = build_net::<S>(scene, grid_size);
        let net_bodies: usize = bodies.len();
        let mut ball_indices: Vec<usize> = Vec::new();
        if scene == DemoScene::FallingBalls {
            let rest_points = ball_rest_points::<S>();
            let mut ball: usize = 0;
            while ball < 3
                invariant
                    ball <= 3,
                    n == grid_size,
                    scene == DemoScene::FallingBalls,
                    net_bodies == net_total(n),
                    net_total(n) + 3 <= usize::MAX,
                    hub_total(n) <= net_total(n),
                    hub_total(n) >= 0,
                    rest_points == ball_rest_points::<S>(),
                    bodies@ == Seq::new(
                        (net_total(n) + ball) as nat,
                        |i: int| initial_body::<S>(scene, grid_size, i),
                    ),
                    ball_indices@ == Seq::new(
                        ball as nat,
                        |i: int| (net_total(n) + i) as usize,
                    ),
                decreases 3 - ball,
            {
                ball_indices.push(bodies.len());
                bodies.push(AffineBody::new(BodyKind::Ball, rest_points, place_ball(ball), false));
                ball = ball + 1;
            }
        }
        assert(bodies@ =~= initial_bodies::<S>(scene, grid_size));
        let hubs: usize = hub_count(grid_size);
        let solver_scratch = SolverScratch::new(bodies.len(), joints.len(), hubs);
        let mut previous_positions: Vec<ControlPoints<S>> = Vec::with_capacity(bodies.len());
        let mut index: usize = 0;
        while index < bodies.len()
            invariant
                index <= bodies@.len(),
                previous_positions@ == Seq::new(index as nat, |i: int| bodies@[i].positions),
            decreases bodies@.len() - index,
        {
            previous_positions.push(bodies[index].positions);
            index = index + 1;
        }
        let result = NetSimulation {
            scene,
            grid_size,
            bodies,
            previous_positions,
            joints,
            cylinder: build_cylinder(scene, grid_size),
            ball_indices,
            solver_scratch,
            coefficient_dt_bits: u64::MAX,
            previous_velocity_scale: zero(),
        };
        proof {
            assert(result.motion() =~= initial_motion::<S>(scene, grid_size));
            assert(result.joints@ =~= net_joints::<S>(n));
            assert(result.ball_indices@ =~= Seq::new(
                ball_total(scene) as nat,
                |i: int| (net_total(n) + i) as usize,
            ));
        }
        result
    }
}

/// The motion that a demo starts with: its bodies at rest, and no coefficients yet.
pub open spec fn initial_motion<S: Scalar>(scene: DemoScene, grid_size: usize) -> Motion<S> {
    let n = grid_size as int;
    let bodies = initial_bodies::<S>(scene, grid_size);
    let chunks = chunk_total(bodies.len() as int) as nat;
    Motion {
        bodies,
        previous: Seq::new(bodies.len(), |i: int| bodies[i].positions),
        residuals: Seq::new(joint_total(n) as nat, |i: int| Vec3::origin()),
        hubs: Seq::new(hub_total(n) as nat, |i: int| Vec3::origin()),
        scale: Seq::new(hub_total(n) as nat, |i: int| zero()),
        chunk_min: Seq::new(chunks, |i: int| Vec3::origin()),
        chunk_max: Seq::new(chunks, |i: int| Vec3::origin()),
        dt_bits: u64::MAX,
        velocity_scale: zero(),
    }
}

/// Contacts with the cylinder only move a body, and a fixed one not at all.
pub proof fn lemma_cylinder_contacts_move<S: Scalar>(
    body: AffineBody<S>,
    previous: ControlPoints<S>,
    cylinder: CylinderCollider<S>,
    passes: nat,
)
    ensures
        body_only_moved(body, cylinder_contacts(body, previous, cylinder, passes)),
    decreases passes,
{
    if passes > 0 {
        let next = cylinder_contact(body, previous, cylinder).0;
        assert(body_only_moved(body, next));
        lemma_cylinder_contacts_move(next, previous, cylinder, (passes - 1) as nat);
    }
}

/// The balls of a demo are where the contacts expect them.
pub proof fn lemma_balls_in_place<S: Scalar>(setup: Setup<S>, motion: Motion<S>)
    requires
        setup.well_formed(),
        motion.well_formed(setup),
    ensures
        balls_in_place(motion.bodies, setup.balls, motion.chunk_min, motion.chunk_max),
        motion.bodies.len() <= usize::MAX,
{
    lemma_counts(setup.grid_size as int);
}

/// A step starts with a demo's bodies and ends with them; no fixed body leaves its place.
pub proof fn lemma_begun<S: Scalar>(setup: Setup<S>, motion: Motion<S>, dt: S)
    requires
        setup.well_formed(),
        motion.well_formed(setup),
    ensures
        begun(setup, motion, dt).well_formed(setup),
        forall|i: int|
            #![trigger begun(setup, motion, dt).bodies[i]]
            0 <= i < motion.bodies.len() && motion.bodies[i].fixed ==> begun(
                setup,
                motion,
                dt,
            ).bodies[i].positions == motion.bodies[i].positions,
{
}

/// The shape projection only moves bodies, and no fixed one.
pub proof fn lemma_shaped<S: Scalar>(setup: Setup<S>, motion: Motion<S>, variant: Variant)
    requires
        setup.well_formed(),
        motion.well_formed(setup),
    ensures
        shaped(setup, motion, variant).well_formed(setup),
        only_moved(motion.bodies, shaped(setup, motion, variant).bodies),
{
    let n = setup.grid_size as int;
    lemma_counts(n);
    let after = shaped(setup, motion, variant).bodies;
    assert forall|i: int| 0 <= i < motion.bodies.len() implies body_only_moved(
        motion.bodies[i],
        #[trigger] after[i],
    ) by {
        assert(motion.bodies[i].fixed == layout(setup.scene, n, i).1);
    }
    lemma_laid_out(setup.scene, n, motion.bodies, after);
}

/// Bodies that only move stay those of a demo.
pub proof fn lemma_laid_out<S: Scalar>(
    scene: DemoScene,
    n: int,
    before: Seq<AffineBody<S>>,
    after: Seq<AffineBody<S>>,
)
    requires
        laid_out(scene, n, before),
        only_moved(before, after),
    ensures
        laid_out(scene, n, after),
{
    assert forall|i: int| 0 <= i < after.len() implies ((#[trigger] after[i]).kind, after[i].fixed)
        == layout(scene, n, i) by {
        assert(body_only_moved(before[i], after[i]));
        assert((before[i].kind, before[i].fixed) == layout(scene, n, i));
    }
}

/// The joint solve only moves bodies, and no fixed one.
pub proof fn lemma_jointed<S: Scalar>(setup: Setup<S>, motion: Motion<S>)
    requires
        setup.well_formed(),
        motion.well_formed(setup),
    ensures
        jointed(setup, motion).well_formed(setup),
        only_moved(motion.bodies, jointed(setup, motion).bodies),
{
    let n = setup.grid_size as int;
    lemma_counts(n);
    let after = jointed(setup, motion).bodies;
    assert forall|i: int| 0 <= i < motion.bodies.len() implies body_only_moved(
        motion.bodies[i],
        #[trigger] after[i],
    ) by {
        assert(motion.bodies[i].fixed == layout(setup.scene, n, i).1);
    }
    lemma_laid_out(setup.scene, n, motion.bodies, after);
}

/// The contacts only move bodies, and no fixed one.
pub proof fn lemma_contacted<S: Scalar>(setup: Setup<S>, motion: Motion<S>)
    requires
        setup.well_formed(),
        motion.well_formed(setup),
    ensures
        contacted(setup, motion).well_formed(setup),
        only_moved(motion.bodies, contacted(setup, motion).bodies),
{
    let n = setup.grid_size as int;
    let after = contacted(setup, motion).bodies;
    match setup.scene {
        DemoScene::JointGrid => {},
        DemoScene::CylinderDrape => {
            assert forall|i: int| 0 <= i < motion.bodies.len() implies body_only_moved(
                motion.bodies[i],
                #[trigger] after[i],
            ) by {
                lemma_cylinder_contacts_move(
                    motion.bodies[i],
                    motion.previous[i],
                    setup.cylinder->0,
                    CONTACT_PASSES as nat,
                );
            }
        },
        DemoScene::FallingBalls => {
            lemma_balls_in_place(setup, motion);
            lemma_ball_passes_move(
                motion.bodies,
                motion.chunk_min,
                motion.chunk_max,
                motion.previous,
                setup.balls,
                0,
            );
        },
    }
    lemma_laid_out(setup.scene, n, motion.bodies, after);
}

/// What the projections of a step leave as it was: everything but the places of free bodies
/// and the scratch of the solver.
pub open spec fn projection_keeps<S: Scalar>(before: Motion<S>, after: Motion<S>) -> bool {
    &&& only_moved(before.bodies, after.bodies)
    &&& after.previous == before.previous
    &&& after.scale == before.scale
    &&& after.dt_bits == before.dt_bits
    &&& after.velocity_scale == before.velocity_scale
}

/// The projections of a step keep a demo's bodies and move no fixed one.
pub proof fn lemma_projected<S: Scalar>(
    setup: Setup<S>,
    motion: Motion<S>,
    variant: Variant,
    rounds: nat,
)
    requires
        setup.well_formed(),
        motion.well_formed(setup),
    ensures
        projected(setup, motion, variant, rounds).well_formed(setup),
        projection_keeps(motion, projected(setup, motion, variant, rounds)),
    decreases rounds,
{
    if rounds > 0 {
        let after_shapes = shaped(setup, motion, variant);
        let after_joints = jointed(setup, after_shapes);
        let after_contacts = contacted(setup, after_joints);
        lemma_shaped(setup, motion, variant);
        lemma_jointed(setup, after_shapes);
        lemma_contacted(setup, after_joints);
        lemma_projected(setup, after_contacts, variant, (rounds - 1) as nat);
        let end = projected(setup, after_contacts, variant, (rounds - 1) as nat);
        lemma_only_moved_transitive(motion.bodies, after_shapes.bodies, after_joints.bodies);
        lemma_only_moved_transitive(motion.bodies, after_joints.bodies, after_contacts.bodies);
        lemma_only_moved_transitive(motion.bodies, after_contacts.bodies, end.bodies);
    }
}

/// A step keeps a demo a demo: the same bodies, hubs before rods before balls, the same of
/// them pinned.
pub proof fn lemma_step_keeps_demo<S: Scalar>(
    setup: Setup<S>,
    motion: Motion<S>,
    dt: S,
    variant: Variant,
)
    requires
        setup.well_formed(),
        motion.well_formed(setup),
    ensures
        stepped(setup, motion, dt, variant).well_formed(setup),
{
    lemma_begun(setup, motion, dt);
    lemma_projected(setup, begun(setup, motion, dt), variant, COROTATED_ITERATIONS as nat);
}

/// A pinned body stays where it is, whatever the step.
pub proof fn lemma_fixed_bodies_stay<S: Scalar>(
    setup: Setup<S>,
    motion: Motion<S>,
    dt: S,
    variant: Variant,
    body: int,
)
    requires
        setup.well_formed(),
        motion.well_formed(setup),
        0 <= body < motion.bodies.len(),
        motion.bodies[body].fixed,
    ensures
        stepped(setup, motion, dt, variant).bodies[body].positions
            == motion.bodies[body].positions,
{
    let start = begun(setup, motion, dt);
    lemma_begun(setup, motion, dt);
    lemma_projected(setup, start, variant, COROTATED_ITERATIONS as nat);
    assert(start.bodies[body].positions == motion.bodies[body].positions);
    let end = projected(setup, start, variant, COROTATED_ITERATIONS as nat);
    assert(body_only_moved(start.bodies[body], end.bodies[body]));
}

impl<S: Scalar> NetSimulation<S> {
    /// Starts a step: computes the coefficients of its length where they are not those of the
    /// last one, and predicts where every point goes.
    pub fn begin_step(&mut self, dt: S)
        requires
            old(self).well_formed(),
        ensures
            final(self).setup() == old(self).setup(),
            final(self).motion() == begun(old(self).setup(), old(self).motion(), dt),
            final(self).well_formed(),
    {
        let ghost setup = self.setup();
        let ghost start = self.motion();
        let ghost n = self.grid_size as int;
        proof {
            lemma_begun(setup, start, dt);
            lemma_counts(n);
        }
        let previous_velocity_scale = self.previous_velocity_scale;
        let dt_bits: u64 = dt.to_bits();
        let count: usize = self.bodies.len();
        if self.coefficient_dt_bits != dt_bits {
            let mut index: usize = 0;
            while index < count
                invariant
                    index <= count,
                    count == start.bodies.len(),
                    self.bodies@.len() == count,
                    self.setup() == setup,
                    self.motion() == (Motion { bodies: self.bodies@, ..start }),
                    forall|i: int|
                        0 <= i < count ==> (#[trigger] self.bodies@[i]) == (if i < index {
                            start.bodies[i].with_coefficients(dt)
                        } else {
                            start.bodies[i]
                        }),
                decreases count - index,
            {
                let mut body = self.bodies[index];
                body.update_time_step_coefficients(dt);
                self.bodies[index] = body;
                index = index + 1;
            }
            proof {
                assert(self.bodies@ =~= with_coefficients(start.bodies, dt));
                assert forall|i: int| 0 <= i < self.joints@.len() implies (
                #[trigger] self.joints@[i]).b.body < hub_total(n) by {
                    lemma_joint_is_neighbor(n, i);
                    assert(self.joints@[i] == net_joint::<S>(n, i));
                }
                if self.joints@.len() > 0 {
                    assert(self.joints@[0] == net_joint::<S>(n, 0));
                }
            }
            prepare_direct_joint_solver(
                self.bodies.as_slice(),
                self.joints.as_slice(),
                &mut self.solver_scratch,
            );
            self.coefficient_dt_bits = dt_bits;
            self.previous_velocity_scale = velocity_damping_for_dt(dt).div(dt);
        }
        let ghost ready = prepared(setup, start, dt);
        assert(self.motion() =~= ready);
        let mut index: usize = 0;
        while index < count
            invariant
                index <= count,
                count == ready.bodies.len(),
                count == ready.previous.len(),
                self.bodies@.len() == count,
                self.previous_positions@.len() == count,
                self.setup() == setup,
                self.motion() == (Motion {
                    bodies: self.bodies@,
                    previous: self.previous_positions@,
                    ..ready
                }),
                forall|i: int|
                    0 <= i < count ==> (#[trigger] self.bodies@[i]) == (if i < index {
                        ready.bodies[i].predicted(ready.previous[i], dt, previous_velocity_scale)
                    } else {
                        ready.bodies[i]
                    }),
                forall|i: int|
                    0 <= i < count ==> (#[trigger] self.previous_positions@[i]) == (if i < index {
                        ready.bodies[i].positions
                    } else {
                        ready.previous[i]
                    }),
            decreases count - index,
        {
            let mut body = self.bodies[index];
            let mut previous = self.previous_positions[index];
            body.predict_positions(&mut previous, dt, previous_velocity_scale);
            self.bodies[index] = body;
            self.previous_positions[index] = previous;
            index = index + 1;
        }
        assert(self.motion() =~= begun(setup, start, dt));
    }

    /// The shape projection of a round.
    pub fn project_shapes<
        const POLAR_ITERATIONS: usize,
        const DIVISION_FREE_FINAL: bool,
        const FUSED_ROD_GEOMETRY: bool,
    >(&mut self)
        requires
            old(self).well_formed(),
        ensures
            final(self).setup() == old(self).setup(),
            final(self).motion() == shaped(
                old(self).setup(),
                old(self).motion(),
                (Variant {
                    polar_iterations: POLAR_ITERATIONS as nat,
                    division_free_final: DIVISION_FREE_FINAL,
                    fused_geometry: FUSED_ROD_GEOMETRY,
                }),
            ),
            final(self).well_formed(),
    {
        proof {
            lemma_shaped(
                self.setup(),
                self.motion(),
                Variant {
                    polar_iterations: POLAR_ITERATIONS as nat,
                    division_free_final: DIVISION_FREE_FINAL,
                    fused_geometry: FUSED_ROD_GEOMETRY,
                },
            );
            lemma_counts(self.grid_size as int);
        }
        project_corotated_shapes::<S, POLAR_ITERATIONS, DIVISION_FREE_FINAL, FUSED_ROD_GEOMETRY>(
            self.bodies.as_mut_slice(),
            self.grid_size,
            self.solver_scratch.hub_weighted_residual.as_mut_slice(),
            self.solver_scratch.constraint_residual.as_mut_slice(),
        );
    }

    /// The joint solve of a round.
    pub fn project_joints(&mut self)
        requires
            old(self).well_formed(),
        ensures
            final(self).setup() == old(self).setup(),
            final(self).motion() == jointed(old(self).setup(), old(self).motion()),
            final(self).well_formed(),
    {
        proof {
            lemma_jointed(self.setup(), self.motion());
            lemma_counts(self.grid_size as int);
        }
        project_joint_constraints_direct(
            self.bodies.as_mut_slice(),
            &mut self.solver_scratch,
            self.grid_size,
        );
    }

    /// The contacts of a round.
    pub fn project_contacts<const BODY_MAJOR_CYLINDER: bool>(&mut self)
        requires
            old(self).well_formed(),
        ensures
            final(self).setup() == old(self).setup(),
            final(self).motion() == contacted(old(self).setup(), old(self).motion()),
            final(self).well_formed(),
    {
        proof {
            lemma_contacted(self.setup(), self.motion());
            lemma_balls_in_place(self.setup(), self.motion());
        }
        match self.scene {
            DemoScene::JointGrid => {},
            DemoScene::CylinderDrape => {
                if let Some(cylinder) = self.cylinder {
                    if BODY_MAJOR_CYLINDER {
                        project_cylinder_contacts_body_major(
                            self.bodies.as_mut_slice(),
                            self.previous_positions.as_slice(),
                            cylinder,
                        );
                    } else {
                        project_cylinder_contact_passes_pass_major(
                            self.bodies.as_mut_slice(),
                            self.previous_positions.as_slice(),
                            cylinder,
                        );
                    }
                }
            },
            DemoScene::FallingBalls => {
                project_ball_contact_passes(
                    self.bodies.as_mut_slice(),
                    self.previous_positions.as_slice(),
                    self.ball_indices.as_slice(),
                    self.solver_scratch.contact_chunk_min.as_mut_slice(),
                    self.solver_scratch.contact_chunk_max.as_mut_slice(),
                );
            },
        }
    }

    /// One step of length `dt`, in the variant that the parameters name. In which order the
    /// cylinder is treated makes no difference.
    pub fn step_with_joint_projection<
        const POLAR_ITERATIONS: usize,
        const DIVISION_FREE_FINAL: bool,
        const FUSED_ROD_GEOMETRY: bool,
        const BODY_MAJOR_CYLINDER: bool,
    >(&mut self, dt: S)
        requires
            old(self).well_formed(),
        ensures
            final(self).setup() == old(self).setup(),
            final(self).motion() == stepped(
                old(self).setup(),
                old(self).motion(),
                dt,
                (Variant {
                    polar_iterations: POLAR_ITERATIONS as nat,
                    division_free_final: DIVISION_FREE_FINAL,
                    fused_geometry: FUSED_ROD_GEOMETRY,
                }),
            ),
            final(self).well_formed(),
    {
        let ghost setup = self.setup();
        let ghost start = begun(setup, self.motion(), dt);
        let ghost variant = Variant {
            polar_iterations: POLAR_ITERATIONS as nat,
            division_free_final: DIVISION_FREE_FINAL,
            fused_geometry: FUSED_ROD_GEOMETRY,
        };
        self.begin_step(dt);
        let mut round: usize = 0;
        while round < COROTATED_ITERATIONS
            invariant
                round <= COROTATED_ITERATIONS,
                self.well_formed(),
                self.setup() == setup,
                variant == (Variant {
                    polar_iterations: POLAR_ITERATIONS as nat,
                    division_free_final: DIVISION_FREE_FINAL,
                    fused_geometry: FUSED_ROD_GEOMETRY,
                }),
                projected(
                    setup,
                    self.motion(),
                    variant,
                    (COROTATED_ITERATIONS - round) as nat,
                ) == projected(setup, start, variant, COROTATED_ITERATIONS as nat),
            decreases COROTATED_ITERATIONS - round,
        {
            self.project_shapes::<POLAR_ITERATIONS, DIVISION_FREE_FINAL, FUSED_ROD_GEOMETRY>();
            self.project_joints();
            self.project_contacts::<BODY_MAJOR_CYLINDER>();
            round = round + 1;
        }
    }

    /// One step of length `dt` with the given rounds of the closest rotation.
    pub fn step_with_polar_iterations<const POLAR_ITERATIONS: usize>(&mut self, dt: S)
        requires
            old(self).well_formed(),
        ensures
            final(self).setup() == old(self).setup(),
            final(self).motion() == stepped(
                old(self).setup(),
                old(self).motion(),
                dt,
                (Variant {
                    polar_iterations: POLAR_ITERATIONS as nat,
                    division_free_final: true,
                    fused_geometry: true,
                }),
            ),
            final(self).well_formed(),
    {
        self.step_with_joint_projection::<POLAR_ITERATIONS, true, true, true>(dt);
    }

    /// One step of length `dt`.
    pub fn step(&mut self, dt: S)
        requires
            old(self).well_formed(),
        ensures
            final(self).setup() == old(self).setup(),
            final(self).motion() == stepped(
                old(self).setup(),
                old(self).motion(),
                dt,
                standard_variant(),
            ),
            final(self).well_formed(),
    {
        self.step_with_polar_iterations::<POLAR_NEWTON_ITERATIONS>(dt);
    }
}

/// The variant that the solver runs.
pub open spec fn standard_variant() -> Variant {
    Variant {
        polar_iterations: POLAR_NEWTON_ITERATIONS as nat,
        division_free_final: true,
        fused_geometry: true,
    }
}

} // verus!
