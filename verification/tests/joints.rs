#![allow(dead_code, unused_imports)]

use bevy::math::{DMat3, DQuat, DVec3};
use mabd::attachment::{
    attachment_position, interpolate_attachment, project_attachment_pair, rod_collider_attachments,
};
use mabd::body::{
    ball_rest_points, body_rest_points, centroid, hub_attachment_center, hub_center,
    hub_rest_points, rod_center_and_deformation_gradient, rod_deformation_gradient,
    rod_joint_endpoints, rod_rest_points, AffineBody, BodyKind, ControlPoints, Weights,
};
use mabd::constants::{
    CONTACT_PASSES, CONTACT_PROXY_CHUNK_SIZE, DEFAULT_GRID_SIZE, POLAR_NEWTON_ITERATIONS,
};
use mabd::joints::{Attachment, BallJoint, SolverScratch};
use mabd::scalar::Scalar;
use mabd::scene::DemoScene;
use mabd::simulation::NetSimulation;
use mabd::vector::{Mat3, Vec3};

/// Double precision numbers.
#[derive(Clone, Copy, Debug, PartialEq)]
struct Double(f64);

impl Scalar for Double {
    fn plus(self, other: Self) -> Self {
        Double(self.0 + other.0)
    }
    fn add(self, other: Self) -> Self {
        Double(self.0 + other.0)
    }
    fn minus(self, other: Self) -> Self {
        Double(self.0 - other.0)
    }
    fn sub(self, other: Self) -> Self {
        Double(self.0 - other.0)
    }
    fn times(self, other: Self) -> Self {
        Double(self.0 * other.0)
    }
    fn mul(self, other: Self) -> Self {
        Double(self.0 * other.0)
    }
    fn over(self, other: Self) -> Self {
        Double(self.0 / other.0)
    }
    fn div(self, other: Self) -> Self {
        Double(self.0 / other.0)
    }
    fn negated(self) -> Self {
        Double(-self.0)
    }
    fn neg(self) -> Self {
        Double(-self.0)
    }
    fn magnitude(self) -> Self {
        Double(self.0.abs())
    }
    fn abs(self) -> Self {
        Double(self.0.abs())
    }
    fn root(self) -> Self {
        Double(self.0.sqrt())
    }
    fn sqrt(self) -> Self {
        Double(self.0.sqrt())
    }
    fn power(self, exponent: Self) -> Self {
        Double(self.0.powf(exponent.0))
    }
    fn powf(self, exponent: Self) -> Self {
        Double(self.0.powf(exponent.0))
    }
    fn below(self, other: Self) -> bool {
        self.0 < other.0
    }
    fn lt(self, other: Self) -> bool {
        self.0 < other.0
    }
    fn at_most(self, other: Self) -> bool {
        self.0 <= other.0
    }
    fn le(self, other: Self) -> bool {
        self.0 <= other.0
    }
    fn finite(self) -> bool {
        self.0.is_finite()
    }
    fn is_finite(self) -> bool {
        self.0.is_finite()
    }
    fn bits(self) -> u64 {
        self.0.to_bits()
    }
    fn to_bits(self) -> u64 {
        self.0.to_bits()
    }
    fn fraction(numerator: i64, denominator: i64) -> Self {
        Double(numerator as f64 / denominator as f64)
    }
    fn from_fraction(numerator: i64, denominator: i64) -> Self {
        Double(numerator as f64 / denominator as f64)
    }
    fn single_fraction(numerator: i64, denominator: i64) -> Self {
        Double((numerator as f32 / denominator as f32) as f64)
    }
    fn from_single_fraction(numerator: i64, denominator: i64) -> Self {
        Double((numerator as f32 / denominator as f32) as f64)
    }
    fn count(value: usize) -> Self {
        Double(value as f64)
    }
    fn from_count(value: usize) -> Self {
        Double(value as f64)
    }
    fn unbounded() -> Self {
        Double(f64::INFINITY)
    }
    fn infinity() -> Self {
        Double(f64::INFINITY)
    }
    fn turned(direction: Vec3<Self>, point: Vec3<Self>) -> Vec3<Self> {
        Self::turn_from_x(direction, point)
    }
    fn turn_from_x(direction: Vec3<Self>, point: Vec3<Self>) -> Vec3<Self> {
        let rotation = DQuat::from_rotation_arc(DVec3::X, dvec(direction));
        vec3(rotation * dvec(point))
    }
}

type Simulation = NetSimulation<Double>;
type Body = AffineBody<Double>;
type Points = ControlPoints<Double>;

const DEFAULT_FIXED_HZ: f64 = 30.0;
const FIXED_HZ_OPTIONS: [f64; 5] = [30.0, 60.0, 120.0, 200.0, 500.0];
const GRID_SIZE_OPTIONS: [usize; 4] = [10, 25, 50, 100];
const HUB_RADIUS: f32 = 0.075;
const ROD_THICKNESS: f32 = 0.055;
const BALL_RADIUS: f32 = 0.34;
const CONTACT_EPSILON: f64 = 1.0e-12;
const SCENES: [DemoScene; 3] = [
    DemoScene::JointGrid,
    DemoScene::CylinderDrape,
    DemoScene::FallingBalls,
];

fn dvec(value: Vec3<Double>) -> DVec3 {
    DVec3::new(value.x.0, value.y.0, value.z.0)
}

fn vec3(value: DVec3) -> Vec3<Double> {
    Vec3 {
        x: Double(value.x),
        y: Double(value.y),
        z: Double(value.z),
    }
}

fn dvecs(values: &[Vec3<Double>]) -> Vec<DVec3> {
    values.iter().map(|&value| dvec(value)).collect()
}

fn dmat(value: Mat3<Double>) -> DMat3 {
    DMat3::from_cols(dvec(value.x_axis), dvec(value.y_axis), dvec(value.z_axis))
}

fn mat3(value: DMat3) -> Mat3<Double> {
    Mat3 {
        x_axis: vec3(value.x_axis),
        y_axis: vec3(value.y_axis),
        z_axis: vec3(value.z_axis),
    }
}

fn array(points: Points) -> [DVec3; 4] {
    [
        dvec(points.p0),
        dvec(points.p1),
        dvec(points.p2),
        dvec(points.p3),
    ]
}

fn points(values: [DVec3; 4]) -> Points {
    ControlPoints {
        p0: vec3(values[0]),
        p1: vec3(values[1]),
        p2: vec3(values[2]),
        p3: vec3(values[3]),
    }
}

fn positions(bodies: &[Body]) -> Vec<[DVec3; 4]> {
    bodies.iter().map(|body| array(body.positions)).collect()
}

fn history(previous: &[Points]) -> Vec<[DVec3; 4]> {
    previous.iter().map(|&points| array(points)).collect()
}

fn dvec3_bits(value: DVec3) -> [u64; 3] {
    [value.x.to_bits(), value.y.to_bits(), value.z.to_bits()]
}

fn assert_bit_exact(actual: &[Vec3<Double>], expected: &[Vec3<Double>], context: &str) {
    assert_eq!(actual.len(), expected.len(), "{context} length");
    for (index, (&actual, &expected)) in actual.iter().zip(expected).enumerate() {
        assert_eq!(
            dvec3_bits(dvec(actual)),
            dvec3_bits(dvec(expected)),
            "{context} at vector {index}"
        );
    }
}

fn maximum_position_error(first: &[Body], second: &[Body]) -> f64 {
    positions(first)
        .iter()
        .flatten()
        .zip(positions(second).iter().flatten())
        .map(|(first, second)| (*first - *second).length())
        .fold(0.0_f64, f64::max)
}

fn trajectory_errors(first: &[Body], second: &[Body]) -> (f64, f64) {
    let mut squared_error_sum = 0.0;
    let mut point_count = 0;
    let mut maximum_error = 0.0_f64;
    for (first, second) in positions(first).iter().zip(positions(second)) {
        for (first_point, second_point) in first.iter().zip(second) {
            let error = (*first_point - second_point).length();
            squared_error_sum += error * error;
            point_count += 1;
            maximum_error = maximum_error.max(error);
        }
    }
    ((squared_error_sum / point_count as f64).sqrt(), maximum_error)
}

fn component_error(actual: DMat3, expected: DMat3) -> f64 {
    actual
        .to_cols_array()
        .into_iter()
        .zip(expected.to_cols_array())
        .map(|(actual, expected)| (actual - expected).abs())
        .fold(0.0_f64, f64::max)
}

fn orthonormality_error(rotation: DMat3) -> f64 {
    (rotation.transpose() * rotation - DMat3::IDENTITY)
        .to_cols_array()
        .into_iter()
        .map(f64::abs)
        .fold(0.0_f64, f64::max)
}

fn default_step() -> Double {
    Double(1.0 / DEFAULT_FIXED_HZ)
}

fn predict_for_test(simulation: &mut Simulation, dt: Double) {
    for (body, previous) in simulation
        .bodies
        .iter_mut()
        .zip(&mut simulation.previous_positions)
    {
        body.predict(previous, dt);
    }
}

fn simulation_is_finite(simulation: &Simulation) -> bool {
    simulation.bodies.len() == simulation.previous_positions.len()
        && simulation
            .bodies
            .iter()
            .zip(&simulation.previous_positions)
            .all(|(body, previous)| {
                array(body.positions)
                    .iter()
                    .chain(&array(*previous))
                    .chain(&array(body.predicted_positions))
                    .all(|value| value.is_finite())
            })
}

fn maximum_joint_gap(simulation: &Simulation) -> f64 {
    simulation
        .joints
        .iter()
        .map(|joint| {
            (dvec(attachment_position(&simulation.bodies, joint.a))
                - dvec(attachment_position(&simulation.bodies, joint.b)))
            .length()
        })
        .fold(0.0, f64::max)
}

fn scratch_for(bodies: &[Body], joints: &[BallJoint<Double>], hubs: usize) -> SolverScratch<Double> {
    SolverScratch::new(bodies.len(), joints.len(), hubs)
}

use bevy::tasks::{ComputeTaskPool, TaskPoolBuilder};
use mabd::dual::{
    apply_dual_matrix, apply_joint_correction, apply_joint_correction_generic,
    compute_joint_residuals, compute_joint_residuals_generic, compute_rod_residuals,
    finalize_joint_residuals, hub_with_force, prepare_direct_joint_solver_reference,
    rod_with_multipliers, solve_dual_direct, sum_neighbors, DualScratch,
};
use mabd::gather::{gather_joint_residuals_reference, gather_joint_residuals_row_streaming};
use mabd::joints::{
    apply_hub_joint_deltas, prepare_direct_joint_solver, project_horizontal_rod_joint_constraints,
    project_joint_constraints_direct, project_rod_joint_constraints_reference,
    project_rod_joint_constraints_structured, project_vertical_rod_joint_constraints,
};
use mabd::shapes::{
    project_ball_shapes, project_corotated_shapes, project_hub_shapes, project_rod_shapes,
};
use mabd::tasks::{correction_tasks, div_ceil, projection_tasks, residual_tasks};

const ZERO: Vec3<Double> = Vec3 {
    x: Double(0.0),
    y: Double(0.0),
    z: Double(0.0),
};

fn pool() -> &'static ComputeTaskPool {
    ComputeTaskPool::get_or_init(|| TaskPoolBuilder::new().num_threads(4).build())
}

fn project_shapes(
    bodies: &mut [Body],
    grid_size: usize,
    hub_centers: &mut [Vec3<Double>],
    rod_endpoints: &mut [Vec3<Double>],
) {
    project_corotated_shapes::<Double, POLAR_NEWTON_ITERATIONS, true, true>(
        bodies,
        grid_size,
        hub_centers,
        rod_endpoints,
    );
}

#[test]
fn parallel_shape_projection_matches_sequential_projection() {
    for scene in [DemoScene::JointGrid, DemoScene::FallingBalls] {
        let mut simulation = Simulation::with_grid_size(scene, 50);
        predict_for_test(&mut simulation, default_step());
        let mut sequential = simulation.bodies.clone();
        for body in &mut sequential {
            body.project_corotated_shape_with_polar_iterations::<POLAR_NEWTON_ITERATIONS>();
        }

        let body_count = simulation.bodies.len();
        let hub_count = simulation.grid_size * simulation.grid_size;
        let rod_count = simulation.joints.len() / 2;
        let mut hub_centers = vec![ZERO; hub_count];
        let mut rod_endpoints = vec![ZERO; rod_count * 2];
        let mut whole = simulation.bodies.clone();
        let mut whole_centers = hub_centers.clone();
        let mut whole_endpoints = rod_endpoints.clone();

        let split = projection_tasks(hub_count, rod_count, body_count, Some(pool().thread_num()))
            .unwrap_or_else(|| panic!("{body_count} bodies were not cut up"));
        let (hubs, remaining) = simulation.bodies.split_at_mut(hub_count);
        let (rods, balls) = remaining.split_at_mut(rod_count);
        pool().scope(|scope| {
            for (chunk, endpoint_chunk) in rods
                .chunks_mut(split.rods_per_task)
                .zip(rod_endpoints.chunks_mut(split.rods_per_task * 2))
            {
                scope.spawn(async move {
                    project_rod_shapes::<Double, POLAR_NEWTON_ITERATIONS, true, true, true>(
                        chunk,
                        endpoint_chunk,
                    );
                });
            }
            for (chunk, center_chunk) in hubs
                .chunks_mut(split.hubs_per_task)
                .zip(hub_centers.chunks_mut(split.hubs_per_task))
            {
                scope.spawn(async move {
                    project_hub_shapes(chunk, center_chunk);
                });
            }
        });
        project_ball_shapes(balls);
        project_shapes(
            &mut whole,
            simulation.grid_size,
            &mut whole_centers,
            &mut whole_endpoints,
        );

        assert_eq!(positions(&simulation.bodies), positions(&sequential));
        assert_eq!(positions(&whole), positions(&sequential));
        assert_eq!(dvecs(&hub_centers), dvecs(&whole_centers));
        assert_eq!(dvecs(&rod_endpoints), dvecs(&whole_endpoints));
        for (body, center) in simulation.bodies[..hub_count].iter().zip(hub_centers) {
            assert_eq!(dvec(center), dvec(hub_attachment_center(body.positions)));
        }
        for (body, endpoints) in simulation.bodies[hub_count..hub_count + rod_count]
            .iter()
            .zip(rod_endpoints.chunks_exact(2))
        {
            let (start, end) = rod_joint_endpoints(body.positions);
            assert_eq!(dvecs(endpoints), [dvec(start), dvec(end)]);
        }
    }
}

#[test]
fn parallel_joint_residuals_match_sequential_projection() {
    let grid_size = GRID_SIZE_OPTIONS[3];
    let mut simulation = Simulation::with_grid_size(DemoScene::JointGrid, grid_size);
    predict_for_test(&mut simulation, default_step());
    let joint_count = simulation.joints.len();
    let rod_count = joint_count / 2;
    let mut parallel = vec![ZERO; joint_count];
    let mut whole = vec![ZERO; joint_count];
    let mut sequential = vec![DVec3::ZERO; joint_count];
    let hub_count = grid_size * grid_size;

    let rods_per_task = residual_tasks(rod_count, joint_count, Some(pool().thread_num()))
        .unwrap_or_else(|| panic!("{joint_count} joints were not cut up"));
    let bodies = &simulation.bodies;
    let rods = &bodies[hub_count..hub_count + rod_count];
    pool().scope(|scope| {
        for ((rod_chunk, joint_chunk), residual_chunk) in rods
            .chunks(rods_per_task)
            .zip(simulation.joints.chunks(rods_per_task * 2))
            .zip(parallel.chunks_mut(rods_per_task * 2))
        {
            scope.spawn(async move {
                compute_rod_residuals(rod_chunk, joint_chunk, bodies, residual_chunk);
            });
        }
    });
    compute_joint_residuals(bodies, &simulation.joints, &mut whole, hub_count);

    for ((rod, joint_pair), residual_pair) in rods
        .iter()
        .zip(simulation.joints.chunks_exact(2))
        .zip(sequential.chunks_exact_mut(2))
    {
        let rod_points = array(rod.positions);
        let start_hub = array(bodies[joint_pair[0].b.body].positions);
        let end_hub = array(bodies[joint_pair[1].b.body].positions);
        let start_hub_center = start_hub[0] * 0.25
            + start_hub[1] * 0.25
            + start_hub[2] * 0.25
            + start_hub[3] * 0.25;
        let end_hub_center =
            end_hub[0] * 0.25 + end_hub[1] * 0.25 + end_hub[2] * 0.25 + end_hub[3] * 0.25;
        residual_pair[0] = rod_points[0] * 0.5 + rod_points[1] * 0.5 - start_hub_center;
        residual_pair[1] = rod_points[2] * 0.5 + rod_points[3] * 0.5 - end_hub_center;
    }

    assert_eq!(dvecs(&parallel), sequential);
    assert_eq!(dvecs(&whole), sequential);
}

#[test]
fn parallel_joint_correction_matches_sequential_correction() {
    let grid_size = GRID_SIZE_OPTIONS[3];
    let hub_count = grid_size * grid_size;
    let mut simulation = Simulation::with_grid_size(DemoScene::JointGrid, grid_size);
    predict_for_test(&mut simulation, default_step());
    let joint_count = simulation.joints.len();
    let rod_count = joint_count / 2;
    let mut dual = DualScratch::new(&simulation.joints, hub_count);
    prepare_direct_joint_solver_reference(&simulation.bodies, &simulation.joints, &mut dual);
    compute_joint_residuals(
        &simulation.bodies,
        &simulation.joints,
        &mut simulation.solver_scratch.constraint_residual,
        hub_count,
    );
    solve_dual_direct(
        &simulation.solver_scratch.constraint_residual,
        &mut simulation.solver_scratch.hub_weighted_residual,
        &mut dual,
        grid_size,
    );

    let mut parallel = simulation.bodies.clone();
    let mut sequential = simulation.bodies;
    let mut parallel_hub_forces = vec![ZERO; hub_count];
    let mut sequential_hub_forces = vec![ZERO; hub_count];
    let split = correction_tasks(
        hub_count,
        rod_count,
        joint_count,
        grid_size,
        Some(pool().thread_num()),
    )
    .unwrap_or_else(|| panic!("{joint_count} joints were not cut up"));
    let hub_rows_per_task = div_ceil(split.hubs_per_task, grid_size);
    let rods_per_task = split.vertical_rows_per_task * grid_size;
    let terms: Vec<Vec3<Double>> = dual
        .solution
        .iter()
        .map(|&multiplier| vec3(-dvec(multiplier) * 0.25))
        .collect();
    let terms = &terms;
    let (hubs, remaining) = parallel.split_at_mut(hub_count);
    let rods = &mut remaining[..rod_count];
    pool().scope(|scope| {
        for (task, (hub_chunk, force_chunk)) in hubs
            .chunks_mut(hub_rows_per_task * grid_size)
            .zip(parallel_hub_forces.chunks_mut(hub_rows_per_task * grid_size))
            .enumerate()
        {
            scope.spawn(async move {
                for (index, (hub, force)) in hub_chunk.iter_mut().zip(force_chunk).enumerate() {
                    let row = task * hub_rows_per_task + index / grid_size;
                    *force = sum_neighbors(terms, grid_size, row, index % grid_size);
                    *hub = hub_with_force(*hub, *force);
                }
            });
        }
        for (rod_chunk, multiplier_chunk) in rods
            .chunks_mut(rods_per_task)
            .zip(dual.solution.chunks(rods_per_task * 2))
        {
            scope.spawn(async move {
                for (rod, pair) in rod_chunk.iter_mut().zip(multiplier_chunk.chunks_exact(2)) {
                    *rod = rod_with_multipliers(*rod, pair[0], pair[1]);
                }
            });
        }
    });
    apply_joint_correction(
        &mut sequential,
        &dual.solution,
        &mut sequential_hub_forces,
        grid_size,
    );

    assert_eq!(dvecs(&parallel_hub_forces), dvecs(&sequential_hub_forces));
    assert_eq!(positions(&parallel), positions(&sequential));
}

#[test]
fn cached_joint_projection_matches_residual_projection() {
    for grid_size in GRID_SIZE_OPTIONS {
        for scene in SCENES {
            let mut simulation = Simulation::with_grid_size(scene, grid_size);
            for _ in 0..20 {
                simulation.step(default_step());
            }

            let hub_count = grid_size * grid_size;
            let mut cached_bodies = simulation.bodies.clone();
            let mut residual_bodies = simulation.bodies.clone();
            let mut cached_scratch = scratch_for(&cached_bodies, &simulation.joints, hub_count);
            let mut residual_scratch = scratch_for(&residual_bodies, &simulation.joints, hub_count);
            let mut dual = DualScratch::new(&simulation.joints, hub_count);
            project_shapes(
                &mut cached_bodies,
                grid_size,
                &mut cached_scratch.hub_weighted_residual,
                &mut cached_scratch.constraint_residual,
            );
            project_shapes(
                &mut residual_bodies,
                grid_size,
                &mut residual_scratch.hub_weighted_residual,
                &mut residual_scratch.constraint_residual,
            );
            assert_eq!(cached_bodies.len(), residual_bodies.len());
            assert_eq!(
                dvecs(&cached_scratch.hub_weighted_residual),
                dvecs(&residual_scratch.hub_weighted_residual)
            );
            assert_eq!(
                dvecs(&cached_scratch.constraint_residual),
                dvecs(&residual_scratch.constraint_residual)
            );

            prepare_direct_joint_solver(&cached_bodies, &simulation.joints, &mut cached_scratch);
            prepare_direct_joint_solver_reference(&residual_bodies, &simulation.joints, &mut dual);
            let mut expected_residual = vec![ZERO; simulation.joints.len()];
            compute_joint_residuals(
                &residual_bodies,
                &simulation.joints,
                &mut expected_residual,
                hub_count,
            );
            finalize_joint_residuals(
                &mut residual_scratch.constraint_residual,
                &residual_scratch.hub_weighted_residual,
                &dual.joint_hub,
            );
            assert_eq!(
                dvecs(&residual_scratch.constraint_residual),
                dvecs(&expected_residual)
            );

            project_joint_constraints_direct(&mut cached_bodies, &mut cached_scratch, grid_size);
            solve_dual_direct(
                &residual_scratch.constraint_residual,
                &mut residual_scratch.hub_weighted_residual,
                &mut dual,
                grid_size,
            );
            let expected_delta: Vec<Vec3<Double>> = residual_scratch
                .hub_weighted_residual
                .iter()
                .zip(&dual.hub_schur_factor)
                .map(|(&weighted_residual, &factor)| vec3(dvec(weighted_residual) * factor.0))
                .collect();
            assert_eq!(
                dvecs(&cached_scratch.constraint_residual),
                dvecs(&expected_residual)
            );
            let maximum_delta_error = cached_scratch
                .hub_weighted_residual
                .iter()
                .zip(&expected_delta)
                .map(|(&cached, &expected)| (dvec(cached) - dvec(expected)).length())
                .fold(0.0_f64, f64::max);
            assert!(
                maximum_delta_error < 1.0e-12,
                "{} {grid_size}x{grid_size} uniform-weight hub delta error: {maximum_delta_error}",
                scene.title()
            );

            let rod_count = simulation.joints.len() / 2;
            let (residual_hubs, remaining) = residual_bodies.split_at_mut(hub_count);
            let residual_rods = &mut remaining[..rod_count];
            apply_hub_joint_deltas(residual_hubs, &expected_delta);
            project_rod_joint_constraints_reference(
                residual_rods,
                &expected_residual,
                &dual.joint_hub,
                &expected_delta,
            );
            let maximum_error = maximum_position_error(&cached_bodies, &residual_bodies);
            assert!(
                maximum_error < 1.0e-12,
                "{} {grid_size}x{grid_size} uniform-weight projection error: {maximum_error}",
                scene.title()
            );
        }
    }
}

#[test]
fn direct_joint_projection_preserves_dual_trajectory() {
    for scene in SCENES {
        let mut direct = Simulation::new(scene);
        let mut dual = Simulation::new(scene);
        for _ in 0..150 {
            direct.step(default_step());
            dual.step_with_dual_projection(default_step());
        }

        let (rms_error, maximum_error) = trajectory_errors(&direct.bodies, &dual.bodies);
        assert!(
            rms_error < 1.0e-9,
            "{} direct-vs-dual RMS trajectory error: {rms_error}",
            scene.title()
        );
        assert!(
            maximum_error < 1.0e-8,
            "{} direct-vs-dual maximum trajectory error: {maximum_error}",
            scene.title()
        );
    }
}

#[test]
fn direct_dual_solver_satisfies_the_constraint_matrix() {
    for scene in SCENES {
        let mut simulation = Simulation::new(scene);
        predict_for_test(&mut simulation, default_step());
        let hub_count = simulation.grid_size * simulation.grid_size;
        let mut dual = DualScratch::new(&simulation.joints, hub_count);
        prepare_direct_joint_solver_reference(&simulation.bodies, &simulation.joints, &mut dual);

        for (index, residual) in simulation
            .solver_scratch
            .constraint_residual
            .iter_mut()
            .enumerate()
        {
            let x = ((index * 17) % 29) as f64 - 14.0;
            let y = ((index * 31) % 37) as f64 - 18.0;
            let z = ((index * 43) % 47) as f64 - 23.0;
            *residual = vec3(DVec3::new(x, y, z) * 0.01);
        }
        let expected = dvecs(&simulation.solver_scratch.constraint_residual);

        solve_dual_direct(
            &simulation.solver_scratch.constraint_residual,
            &mut simulation.solver_scratch.hub_weighted_residual,
            &mut dual,
            simulation.grid_size,
        );

        let mut actual = vec![ZERO; simulation.joints.len()];
        apply_dual_matrix(
            &simulation.bodies,
            &simulation.joints,
            &dual.solution,
            &mut actual,
        );

        let maximum_error = actual
            .iter()
            .zip(&expected)
            .map(|(&actual, expected)| (dvec(actual) - *expected).length())
            .fold(0.0_f64, f64::max);
        let maximum_magnitude = expected
            .iter()
            .map(|value| value.length())
            .fold(0.0_f64, f64::max);
        assert!(
            maximum_error <= 1.0e-12 * (1.0 + maximum_magnitude),
            "{} direct solve residual: {maximum_error}",
            scene.title()
        );
    }
}

#[test]
fn row_streaming_joint_gather_matches_reference_bit_exactly() {
    for grid_size in [2, 3, 10, 25, 50, 100] {
        let endpoint_count = 4 * grid_size * (grid_size - 1);
        let hub_count = grid_size * grid_size;
        let endpoint = (0..endpoint_count)
            .map(|index| {
                vec3(DVec3::new(
                    if index % 17 == 0 {
                        -0.0
                    } else {
                        ((index * 13) % 53) as f64 * 0.03125 - 0.75
                    },
                    ((index * 29) % 71) as f64 * 0.015625 - 0.5,
                    ((index * 43) % 89) as f64 * 0.0078125 - 0.25,
                ))
            })
            .collect::<Vec<_>>();
        let hub_center = (0..hub_count)
            .map(|index| {
                vec3(DVec3::new(
                    ((index * 11) % 47) as f64 * 0.03125 - 0.5,
                    if index % 19 == 0 {
                        -0.0
                    } else {
                        ((index * 23) % 61) as f64 * 0.015625 - 0.375
                    },
                    ((index * 37) % 73) as f64 * 0.0078125 - 0.125,
                ))
            })
            .collect::<Vec<_>>();
        let hub_delta_scale = (0..hub_count)
            .map(|index| Double(0.125 + (index % 7) as f64 * 0.03125))
            .collect::<Vec<_>>();

        let mut row_streaming_endpoint = endpoint.clone();
        let mut reference_endpoint = endpoint;
        let mut row_streaming_hub = hub_center.clone();
        let mut reference_hub = hub_center;
        gather_joint_residuals_row_streaming(
            &mut row_streaming_endpoint,
            &mut row_streaming_hub,
            &hub_delta_scale,
            grid_size,
        );
        gather_joint_residuals_reference(
            &mut reference_endpoint,
            &mut reference_hub,
            &hub_delta_scale,
            grid_size,
        );
        assert_bit_exact(
            &row_streaming_endpoint,
            &reference_endpoint,
            &format!("{grid_size}x{grid_size} synthetic endpoint residual"),
        );
        assert_bit_exact(
            &row_streaming_hub,
            &reference_hub,
            &format!("{grid_size}x{grid_size} synthetic hub delta"),
        );
    }

    for scene in SCENES {
        let mut simulation = Simulation::with_grid_size(scene, 25);
        for _ in 0..8 {
            simulation.step(default_step());
        }

        let hub_count = simulation.grid_size * simulation.grid_size;
        let mut projected_bodies = simulation.bodies.clone();
        for body in &mut projected_bodies {
            body.update_time_step_coefficients(default_step());
        }
        let mut scratch = scratch_for(&projected_bodies, &simulation.joints, hub_count);
        prepare_direct_joint_solver(&projected_bodies, &simulation.joints, &mut scratch);
        project_shapes(
            &mut projected_bodies,
            simulation.grid_size,
            &mut scratch.hub_weighted_residual,
            &mut scratch.constraint_residual,
        );

        let mut row_streaming_endpoint = scratch.constraint_residual.clone();
        let mut reference_endpoint = scratch.constraint_residual;
        let mut row_streaming_hub = scratch.hub_weighted_residual.clone();
        let mut reference_hub = scratch.hub_weighted_residual;
        gather_joint_residuals_row_streaming(
            &mut row_streaming_endpoint,
            &mut row_streaming_hub,
            &scratch.hub_delta_scale,
            simulation.grid_size,
        );
        gather_joint_residuals_reference(
            &mut reference_endpoint,
            &mut reference_hub,
            &scratch.hub_delta_scale,
            simulation.grid_size,
        );
        assert_bit_exact(
            &row_streaming_endpoint,
            &reference_endpoint,
            &format!("{} live endpoint residual", scene.title()),
        );
        assert_bit_exact(
            &row_streaming_hub,
            &reference_hub,
            &format!("{} live hub delta", scene.title()),
        );
    }
}

#[test]
fn structured_hub_gather_matches_joint_scatter() {
    let grid_size = GRID_SIZE_OPTIONS[3];
    let hub_count = grid_size * grid_size;
    let mut simulation = Simulation::with_grid_size(DemoScene::JointGrid, grid_size);
    predict_for_test(&mut simulation, default_step());
    let mut dual = DualScratch::new(&simulation.joints, hub_count);
    prepare_direct_joint_solver_reference(&simulation.bodies, &simulation.joints, &mut dual);
    compute_joint_residuals(
        &simulation.bodies,
        &simulation.joints,
        &mut simulation.solver_scratch.constraint_residual,
        hub_count,
    );

    let residuals = dvecs(&simulation.solver_scratch.constraint_residual);
    let mut expected_hub_residual = vec![DVec3::ZERO; hub_count];
    for (index, joint) in simulation.joints.iter().enumerate() {
        expected_hub_residual[joint.b.body] +=
            residuals[index] * dual.rod_inverse_weight[index / 2].0;
    }
    let expected_solution = simulation
        .joints
        .iter()
        .enumerate()
        .map(|(index, joint)| {
            let hub = joint.b.body;
            (residuals[index] - expected_hub_residual[hub] * dual.hub_schur_factor[hub].0)
                * dual.rod_inverse_weight[index / 2].0
        })
        .collect::<Vec<_>>();

    solve_dual_direct(
        &simulation.solver_scratch.constraint_residual,
        &mut simulation.solver_scratch.hub_weighted_residual,
        &mut dual,
        grid_size,
    );

    assert_eq!(
        dvecs(&simulation.solver_scratch.hub_weighted_residual),
        expected_hub_residual
    );
    assert_eq!(dvecs(&dual.solution), expected_solution);
}

#[test]
fn structured_rod_correction_matches_joint_lookup_exactly() {
    for grid_size in [2, 10, 25, 50, 100] {
        for scene in SCENES {
            let simulation = Simulation::with_grid_size(scene, grid_size);
            let hub_count = grid_size * grid_size;
            let rod_count = simulation.joints.len() / 2;
            let dual = DualScratch::new(&simulation.joints, hub_count);
            let rods = &simulation.bodies[hub_count..hub_count + rod_count];
            let residuals: Vec<_> = (0..rod_count * 2)
                .map(|index| {
                    vec3(
                        DVec3::new(
                            ((index * 17) % 31) as f64 - 15.0,
                            ((index * 29) % 37) as f64 - 18.0,
                            ((index * 43) % 47) as f64 - 23.0,
                        ) * 1.0e-5,
                    )
                })
                .collect();
            let hub_delta: Vec<_> = (0..hub_count)
                .map(|index| {
                    vec3(
                        DVec3::new(
                            ((index * 13) % 19) as f64 - 9.0,
                            ((index * 23) % 29) as f64 - 14.0,
                            ((index * 31) % 41) as f64 - 20.0,
                        ) * 1.0e-6,
                    )
                })
                .collect();

            let mut structured = rods.to_vec();
            let mut reference = rods.to_vec();
            project_rod_joint_constraints_structured(
                &mut structured,
                &residuals,
                &hub_delta,
                grid_size,
            );
            project_rod_joint_constraints_reference(
                &mut reference,
                &residuals,
                &dual.joint_hub,
                &hub_delta,
            );
            assert_eq!(positions(&structured), positions(&reference));

            let horizontal_rod_count = grid_size * (grid_size - 1);
            let mut row_chunked = rods.to_vec();
            let (horizontal_rods, vertical_rods) = row_chunked.split_at_mut(horizontal_rod_count);
            let (horizontal_residuals, vertical_residuals) =
                residuals.split_at(horizontal_rod_count * 2);
            let horizontal_rows_per_chunk = 3;
            let horizontal_rods_per_chunk = horizontal_rows_per_chunk * (grid_size - 1);
            for (chunk, (rod_chunk, residual_chunk)) in horizontal_rods
                .chunks_mut(horizontal_rods_per_chunk)
                .zip(horizontal_residuals.chunks(horizontal_rods_per_chunk * 2))
                .enumerate()
            {
                project_horizontal_rod_joint_constraints(
                    rod_chunk,
                    residual_chunk,
                    &hub_delta,
                    grid_size,
                    chunk * horizontal_rows_per_chunk,
                );
            }
            let vertical_rows_per_chunk = 4;
            let vertical_rods_per_chunk = vertical_rows_per_chunk * grid_size;
            for (chunk, (rod_chunk, residual_chunk)) in vertical_rods
                .chunks_mut(vertical_rods_per_chunk)
                .zip(vertical_residuals.chunks(vertical_rods_per_chunk * 2))
                .enumerate()
            {
                project_vertical_rod_joint_constraints(
                    rod_chunk,
                    residual_chunk,
                    &hub_delta,
                    grid_size,
                    chunk * vertical_rows_per_chunk,
                );
            }
            assert_eq!(positions(&row_chunked), positions(&reference));
        }
    }
}

#[test]
fn production_rods_share_one_inverse_weight() {
    for grid_size in [2, 25, 50, 100] {
        for scene in SCENES {
            for dt in [1.0 / 30.0, 1.0 / 60.0, 1.0 / 120.0] {
                let mut simulation = Simulation::with_grid_size(scene, grid_size);
                for body in &mut simulation.bodies {
                    body.update_time_step_coefficients(Double(dt));
                }
                let hub_count = grid_size * grid_size;
                let rod_count = simulation.joints.len() / 2;
                let mut dual = DualScratch::new(&simulation.joints, hub_count);
                prepare_direct_joint_solver(
                    &simulation.bodies,
                    &simulation.joints,
                    &mut simulation.solver_scratch,
                );
                prepare_direct_joint_solver_reference(
                    &simulation.bodies,
                    &simulation.joints,
                    &mut dual,
                );

                let first_rod_inverse_diagonal = simulation.bodies[hub_count].inverse_diagonal.0;
                for rod in &simulation.bodies[hub_count..hub_count + rod_count] {
                    assert_eq!(
                        rod.inverse_diagonal.0.to_bits(),
                        first_rod_inverse_diagonal.to_bits()
                    );
                }

                let inverse_rod_weight = (first_rod_inverse_diagonal * 0.5).recip();
                for (hub, &scale) in simulation.solver_scratch.hub_delta_scale.iter().enumerate() {
                    let expected = inverse_rod_weight * dual.hub_schur_factor[hub].0;
                    assert_eq!(scale.0.to_bits(), expected.to_bits());
                }
            }
        }
    }
}

#[test]
fn per_rod_inverse_weights_match_per_joint_reference() {
    let grid_size = GRID_SIZE_OPTIONS[1];
    let hub_count = grid_size * grid_size;
    let mut simulation = Simulation::with_grid_size(DemoScene::JointGrid, grid_size);
    predict_for_test(&mut simulation, default_step());
    for (rod, body) in simulation.bodies[hub_count..].iter_mut().enumerate() {
        body.inverse_diagonal = Double(1.0e-5 + rod as f64 * 1.0e-10);
    }

    let mut expected_weights = Vec::with_capacity(simulation.joints.len());
    let mut expected_hub_sums = vec![0.0; hub_count];
    for joint in &simulation.joints {
        let inverse_rod_weight = (simulation.bodies[joint.a.body].inverse_diagonal.0 * 0.5).recip();
        expected_weights.push(inverse_rod_weight);
        expected_hub_sums[joint.b.body] += inverse_rod_weight;
    }

    let mut dual = DualScratch::new(&simulation.joints, hub_count);
    prepare_direct_joint_solver_reference(&simulation.bodies, &simulation.joints, &mut dual);

    for (joint, expected) in expected_weights.iter().enumerate() {
        assert_eq!(
            dual.rod_inverse_weight[joint / 2].0.to_bits(),
            expected.to_bits()
        );
    }
    let hub_sums: Vec<f64> = dual
        .hub_inverse_rod_weight_sum
        .iter()
        .map(|sum| sum.0)
        .collect();
    assert_eq!(hub_sums, expected_hub_sums);
}

#[test]
fn specialized_joint_correction_matches_generic_scatter() {
    for scene in [DemoScene::JointGrid, DemoScene::FallingBalls] {
        let mut simulation = Simulation::new(scene);
        predict_for_test(&mut simulation, default_step());

        let multipliers = (0..simulation.joints.len())
            .map(|index| {
                let x = ((index * 13) % 19) as f64 - 9.0;
                let y = ((index * 23) % 31) as f64 - 15.0;
                let z = ((index * 37) % 41) as f64 - 20.0;
                vec3(DVec3::new(x, y, z) * 0.001)
            })
            .collect::<Vec<_>>();
        let mut specialized = simulation.bodies.clone();
        let mut generic = simulation.bodies;

        let hub_count = simulation.grid_size * simulation.grid_size;
        let mut expected_hub_forces = vec![DVec3::ZERO; hub_count];
        for (joint, &multiplier) in simulation.joints.iter().zip(&multipliers) {
            expected_hub_forces[joint.b.body] += -dvec(multiplier) * 0.25;
        }
        let mut hub_forces = vec![ZERO; specialized.len()];
        apply_joint_correction(
            &mut specialized,
            &multipliers,
            &mut hub_forces,
            simulation.grid_size,
        );
        apply_joint_correction_generic(&mut generic, &simulation.joints, &multipliers);
        assert_eq!(dvecs(&hub_forces[..hub_count]), expected_hub_forces);

        let maximum_error = maximum_position_error(&specialized, &generic);
        assert!(
            maximum_error < 1.0e-15,
            "{} specialized correction error: {maximum_error}",
            scene.title()
        );
    }
}

#[test]
fn specialized_joint_residuals_match_generic_attachments() {
    for scene in [DemoScene::JointGrid, DemoScene::FallingBalls] {
        let mut simulation = Simulation::new(scene);
        for _ in 0..20 {
            simulation.step(default_step());
        }

        let mut specialized = vec![ZERO; simulation.joints.len()];
        let mut generic = vec![ZERO; simulation.joints.len()];
        compute_joint_residuals(
            &simulation.bodies,
            &simulation.joints,
            &mut specialized,
            simulation.grid_size * simulation.grid_size,
        );
        compute_joint_residuals_generic(&simulation.bodies, &simulation.joints, &mut generic);

        let maximum_error = specialized
            .iter()
            .zip(&generic)
            .map(|(&specialized, &generic)| (dvec(specialized) - dvec(generic)).length())
            .fold(0.0_f64, f64::max);
        assert!(
            maximum_error < 1.0e-15,
            "{} specialized residual error: {maximum_error}",
            scene.title()
        );
    }
}
