#![allow(dead_code, unused_imports)]

use bevy::math::{DMat3, DQuat, DVec3};
use mabd::attachment::{
    attachment_position, interpolate_attachment, project_attachment_pair, rod_collider_attachments,
};
use mabd::body::{
    ball_rest_points, body_rest_points, centroid, hub_attachment_center, hub_center,
    hub_rest_points, rod_center_and_deformation_gradient, rod_deformation_gradient,
    rod_joint_endpoints, rod_rest_points, AffineBody, BodyKind, ControlPoints, Weights,
};
use mabd::constants::{
    CONTACT_PASSES, CONTACT_PROXY_CHUNK_SIZE, DEFAULT_GRID_SIZE, POLAR_NEWTON_ITERATIONS,
};
use mabd::joints::{Attachment, BallJoint, SolverScratch};
use mabd::scalar::Scalar;
use mabd::scene::DemoScene;
use mabd::simulation::NetSimulation;
use mabd::vector::{Mat3, Vec3};

/// Double precision numbers.
#[derive(Clone, Copy, Debug, PartialEq)]
struct Double(f64);

impl Scalar for Double {
    fn plus(self, other: Self) -> Self {
        Double(self.0 + other.0)
    }
    fn add(self, other: Self) -> Self {
        Double(self.0 + other.0)
    }
    fn minus(self, other: Self) -> Self {
        Double(self.0 - other.0)
    }
    fn sub(self, other: Self) -> Self {
        Double(self.0 - other.0)
    }
    fn times(self, other: Self) -> Self {
        Double(self.0 * other.0)
    }
    fn mul(self, other: Self) -> Self {
        Double(self.0 * other.0)
    }
    fn over(self, other: Self) -> Self {
        Double(self.0 / other.0)
    }
    fn div(self, other: Self) -> Self {
        Double(self.0 / other.0)
    }
    fn negated(self) -> Self {
        Double(-self.0)
    }
    fn neg(self) -> Self {
        Double(-self.0)
    }
    fn magnitude(self) -> Self {
        Double(self.0.abs())
    }
    fn abs(self) -> Self {
        Double(self.0.abs())
    }
    fn root(self) -> Self {
        Double(self.0.sqrt())
    }
    fn sqrt(self) -> Self {
        Double(self.0.sqrt())
    }
    fn power(self, exponent: Self) -> Self {
        Double(self.0.powf(exponent.0))
    }
    fn powf(self, exponent: Self) -> Self {
        Double(self.0.powf(exponent.0))
    }
    fn below(self, other: Self) -> bool {
        self.0 < other.0
    }
    fn lt(self, other: Self) -> bool {
        self.0 < other.0
    }
    fn at_most(self, other: Self) -> bool {
        self.0 <= other.0
    }
    fn le(self, other: Self) -> bool {
        self.0 <= other.0
    }
    fn finite(self) -> bool {
        self.0.is_finite()
    }
    fn is_finite(self) -> bool {
        self.0.is_finite()
    }
    fn bits(self) -> u64 {
        self.0.to_bits()
    }
    fn to_bits(self) -> u64 {
        self.0.to_bits()
    }
    fn fraction(numerator: i64, denominator: i64) -> Self {
        Double(numerator as f64 / denominator as f64)
    }
    fn from_fraction(numerator: i64, denominator: i64) -> Self {
        Double(numerator as f64 / denominator as f64)
    }
    fn single_fraction(numerator: i64, denominator: i64) -> Self {
        Double((numerator as f32 / denominator as f32) as f64)
    }
    fn from_single_fraction(numerator: i64, denominator: i64) -> Self {
        Double((numerator as f32 / denominator as f32) as f64)
    }
    fn count(value: usize) -> Self {
        Double(value as f64)
    }
    fn from_count(value: usize) -> Self {
        Double(value as f64)
    }
    fn unbounded() -> Self {
        Double(f64::INFINITY)
    }
    fn infinity() -> Self {
        Double(f64::INFINITY)
    }
    fn turned(direction: Vec3<Self>, point: Vec3<Self>) -> Vec3<Self> {
        Self::turn_from_x(direction, point)
    }
    fn turn_from_x(direction: Vec3<Self>, point: Vec3<Self>) -> Vec3<Self> {
        let rotation = DQuat::from_rotation_arc(DVec3::X, dvec(direction));
        vec3(rotation * dvec(point))
    }
}

type Simulation = NetSimulation<Double>;
type Body = AffineBody<Double>;
type Points = ControlPoints<Double>;

const DEFAULT_FIXED_HZ: f64 = 30.0;
const FIXED_HZ_OPTIONS: [f64; 5] = [30.0, 60.0, 120.0, 200.0, 500.0];
const GRID_SIZE_OPTIONS: [usize; 4] = [10, 25, 50, 100];
const HUB_RADIUS: f32 = 0.075;
const ROD_THICKNESS: f32 = 0.055;
const BALL_RADIUS: f32 = 0.34;
const CONTACT_EPSILON: f64 = 1.0e-12;
const SCENES: [DemoScene; 3] = [
    DemoScene::JointGrid,
    DemoScene::CylinderDrape,
    DemoScene::FallingBalls,
];

fn dvec(value: Vec3<Double>) -> DVec3 {
    DVec3::new(value.x.0, value.y.0, value.z.0)
}

fn vec3(value: DVec3) -> Vec3<Double> {
    Vec3 {
        x: Double(value.x),
        y: Double(value.y),
        z: Double(value.z),
    }
}

fn dvecs(values: &[Vec3<Double>]) -> Vec<DVec3> {
    values.iter().map(|&value| dvec(value)).collect()
}

fn dmat(value: Mat3<Double>) -> DMat3 {
    DMat3::from_cols(dvec(value.x_axis), dvec(value.y_axis), dvec(value.z_axis))
}

fn mat3(value: DMat3) -> Mat3<Double> {
    Mat3 {
        x_axis: vec3(value.x_axis),
        y_axis: vec3(value.y_axis),
        z_axis: vec3(value.z_axis),
    }
}

fn array(points: Points) -> [DVec3; 4] {
    [
        dvec(points.p0),
        dvec(points.p1),
        dvec(points.p2),
        dvec(points.p3),
    ]
}

fn points(values: [DVec3; 4]) -> Points {
    ControlPoints {
        p0: vec3(values[0]),
        p1: vec3(values[1]),
        p2: vec3(values[2]),
        p3: vec3(values[3]),
    }
}

fn positions(bodies: &[Body]) -> Vec<[DVec3; 4]> {
    bodies.iter().map(|body| array(body.positions)).collect()
}

fn history(previous: &[Points]) -> Vec<[DVec3; 4]> {
    previous.iter().map(|&points| array(points)).collect()
}

fn dvec3_bits(value: DVec3) -> [u64; 3] {
    [value.x.to_bits(), value.y.to_bits(), value.z.to_bits()]
}

fn assert_bit_exact(actual: &[Vec3<Double>], expected: &[Vec3<Double>], context: &str) {
    assert_eq!(actual.len(), expected.len(), "{context} length");
    for (index, (&actual, &expected)) in actual.iter().zip(expected).enumerate() {
        assert_eq!(
            dvec3_bits(dvec(actual)),
            dvec3_bits(dvec(expected)),
            "{context} at vector {index}"
        );
    }
}

fn maximum_position_error(first: &[Body], second: &[Body]) -> f64 {
    positions(first)
        .iter()
        .flatten()
        .zip(positions(second).iter().flatten())
        .map(|(first, second)| (*first - *second).length())
        .fold(0.0_f64, f64::max)
}

fn trajectory_errors(first: &[Body], second: &[Body]) -> (f64, f64) {
    let mut squared_error_sum = 0.0;
    let mut point_count = 0;
    let mut maximum_error = 0.0_f64;
    for (first, second) in positions(first).iter().zip(positions(second)) {
        for (first_point, second_point) in first.iter().zip(second) {
            let error = (*first_point - second_point).length();
            squared_error_sum += error * error;
            point_count += 1;
            maximum_error = maximum_error.max(error);
        }
    }
    ((squared_error_sum / point_count as f64).sqrt(), maximum_error)
}

fn component_error(actual: DMat3, expected: DMat3) -> f64 {
    actual
        .to_cols_array()
        .into_iter()
        .zip(expected.to_cols_array())
        .map(|(actual, expected)| (actual - expected).abs())
        .fold(0.0_f64, f64::max)
}

fn orthonormality_error(rotation: DMat3) -> f64 {
    (rotation.transpose() * rotation - DMat3::IDENTITY)
        .to_cols_array()
        .into_iter()
        .map(f64::abs)
        .fold(0.0_f64, f64::max)
}

fn default_step() -> Double {
    Double(1.0 / DEFAULT_FIXED_HZ)
}

fn predict_for_test(simulation: &mut Simulation, dt: Double) {
    for (body, previous) in simulation
        .bodies
        .iter_mut()
        .zip(&mut simulation.previous_positions)
    {
        body.predict(previous, dt);
    }
}

fn simulation_is_finite(simulation: &Simulation) -> bool {
    simulation.bodies.len() == simulation.previous_positions.len()
        && simulation
            .bodies
            .iter()
            .zip(&simulation.previous_positions)
            .all(|(body, previous)| {
                array(body.positions)
                    .iter()
                    .chain(&array(*previous))
                    .chain(&array(body.predicted_positions))
                    .all(|value| value.is_finite())
            })
}

fn maximum_joint_gap(simulation: &Simulation) -> f64 {
    simulation
        .joints
        .iter()
        .map(|joint| {
            (dvec(attachment_position(&simulation.bodies, joint.a))
                - dvec(attachment_position(&simulation.bodies, joint.b)))
            .length()
        })
        .fold(0.0, f64::max)
}

fn scratch_for(bodies: &[Body], joints: &[BallJoint<Double>], hubs: usize) -> SolverScratch<Double> {
    SolverScratch::new(bodies.len(), joints.len(), hubs)
}

use mabd::simulation::velocity_damping_for_dt;

#[test]
fn builds_the_papers_10_by_10_topology() {
    let simulation = Simulation::new(DemoScene::JointGrid);
    let fixed_hubs = simulation.bodies.iter().filter(|body| body.fixed).count();

    assert_eq!(simulation.bodies.len(), 280);
    assert_eq!(simulation.joints.len(), 360);
    assert_eq!(fixed_hubs, 10);
}

#[test]
fn builds_each_supported_grid_topology() {
    for grid_size in GRID_SIZE_OPTIONS {
        let simulation = Simulation::with_grid_size(DemoScene::JointGrid, grid_size);
        let expected_bodies = 3 * grid_size * grid_size - 2 * grid_size;
        let expected_joints = 4 * grid_size * (grid_size - 1);

        assert_eq!(simulation.grid_size, grid_size);
        assert_eq!(simulation.bodies.len(), expected_bodies);
        assert_eq!(simulation.joints.len(), expected_joints);
        assert_eq!(
            simulation.bodies.iter().filter(|body| body.fixed).count(),
            grid_size
        );
    }
}

#[test]
fn ball_joints_remain_closed_under_gravity() {
    let mut simulation = Simulation::new(DemoScene::JointGrid);

    for _ in 0..30 {
        simulation.step(default_step());
    }

    let maximum_gap = maximum_joint_gap(&simulation);
    let bottom_hub_height = dvec(
        simulation.bodies[DEFAULT_GRID_SIZE * (DEFAULT_GRID_SIZE - 1) + DEFAULT_GRID_SIZE / 2]
            .centroid(),
    )
    .y;
    let maximum_shape_error = simulation
        .bodies
        .iter()
        .flat_map(|body| {
            let center = dvec(body.centroid());
            let rotation = dmat(body.rotation());
            let rest_points = array(body_rest_points(body.kind));
            let body_points = array(body.positions);
            (0..4).map(move |index| {
                (body_points[index] - center - rotation * rest_points[index]).length()
            })
        })
        .fold(0.0_f64, f64::max);

    assert!(maximum_gap.is_finite());
    assert!(maximum_gap < 1.0e-5, "maximum joint gap: {maximum_gap}");
    assert!(bottom_hub_height < 2.5, "net did not fall under gravity");
    assert!(
        maximum_shape_error < 0.05,
        "maximum affine shape error: {maximum_shape_error}"
    );
}

#[test]
fn builds_all_three_demo_scenes() {
    let grid = Simulation::new(DemoScene::JointGrid);
    let cylinder = Simulation::new(DemoScene::CylinderDrape);
    let balls = Simulation::new(DemoScene::FallingBalls);

    assert_eq!(grid.bodies.len(), 280);
    assert_eq!(grid.bodies.iter().filter(|body| body.fixed).count(), 10);
    assert!(grid.cylinder.is_none());
    assert!(grid.ball_indices.is_empty());

    assert_eq!(cylinder.bodies.len(), 280);
    assert_eq!(cylinder.bodies.iter().filter(|body| body.fixed).count(), 10);
    assert!(cylinder.cylinder.is_some());
    assert!(cylinder.ball_indices.is_empty());

    assert_eq!(balls.bodies.len(), 283);
    assert_eq!(balls.bodies.iter().filter(|body| body.fixed).count(), 4);
    assert!(balls.cylinder.is_none());
    assert_eq!(balls.ball_indices.len(), 3);
    assert_eq!(balls.joints.len(), 360);
}

#[test]
fn previous_position_history_is_kept_out_of_hot_body_state() {
    assert_eq!(std::mem::size_of::<Body>(), 216);
    for scene in SCENES {
        let simulation = Simulation::new(scene);
        assert_eq!(simulation.bodies.len(), simulation.previous_positions.len());
        for (body, previous) in simulation.bodies.iter().zip(&simulation.previous_positions) {
            assert_eq!(array(body.positions), array(*previous));
        }
    }
}

#[test]
fn supported_fixed_rates_update_time_and_preserve_damping() {
    let expected_one_second_damping = 0.997_f64.powf(DEFAULT_FIXED_HZ);

    for hz in FIXED_HZ_OPTIONS {
        let mut fixed_time = bevy::time::Time::<bevy::time::Fixed>::from_hz(DEFAULT_FIXED_HZ);
        fixed_time.set_timestep_hz(hz);
        let dt = fixed_time.timestep().as_secs_f64();
        let measured_hz = 1.0 / dt;
        let one_second_damping = velocity_damping_for_dt(Double(dt)).0.powf(measured_hz);

        assert!((measured_hz - hz).abs() < 1.0e-4);
        assert!((one_second_damping - expected_one_second_damping).abs() < 1.0e-9);
    }
}

#[test]
fn deferred_velocity_reconstruction_matches_explicit_recurrence() {
    let gravity = DVec3::new(0.0, -9.81, 0.0);
    for fixed in [false, true] {
        let rotation = DQuat::from_rotation_z(0.37);
        let offsets = array(rod_rest_points()).map(|point| rotation * point);
        let mut deferred = Body::new(
            BodyKind::Rod,
            points(offsets),
            vec3(DVec3::new(0.3, 1.7, -0.4)),
            fixed,
        );
        let mut explicit_positions = array(deferred.positions);
        let mut explicit_predicted = explicit_positions;
        let mut deferred_previous_positions = deferred.positions;
        let mut explicit_previous_positions;
        let mut explicit_velocity = [DVec3::ZERO; 4];
        let mut previous_velocity_scale = 0.0;

        for (step, dt) in [
            1.0 / 30.0,
            1.0 / 30.0,
            1.0 / 60.0,
            1.0 / 120.0,
            1.0 / 30.0,
        ]
        .into_iter()
        .enumerate()
        {
            deferred.predict_positions(
                &mut deferred_previous_positions,
                Double(dt),
                Double(previous_velocity_scale),
            );

            explicit_previous_positions = explicit_positions;
            if fixed {
                explicit_predicted = explicit_positions;
                explicit_velocity = [DVec3::ZERO; 4];
            } else {
                for (index, velocity) in explicit_velocity.iter().enumerate() {
                    explicit_predicted[index] =
                        explicit_positions[index] + *velocity * dt + gravity * (dt * dt);
                    explicit_positions[index] = explicit_predicted[index];
                }
            }

            assert_eq!(array(deferred.positions), explicit_positions);
            assert_eq!(array(deferred_previous_positions), explicit_previous_positions);
            assert_eq!(array(deferred.predicted_positions), explicit_predicted);

            if !fixed {
                let mut corrected = array(deferred.positions);
                for index in 0..4 {
                    let correction = DVec3::new(
                        (step + index) as f64 * 1.0e-4,
                        (2 * step + index) as f64 * -2.0e-4,
                        (step + 3 * index) as f64 * 1.5e-4,
                    );
                    corrected[index] += correction;
                    explicit_positions[index] += correction;
                }
                deferred.positions = points(corrected);
            }

            previous_velocity_scale = velocity_damping_for_dt(Double(dt)).0 / dt;
            if !fixed {
                for (index, velocity) in explicit_velocity.iter_mut().enumerate() {
                    *velocity = (explicit_positions[index] - explicit_previous_positions[index])
                        * previous_velocity_scale;
                }
            }
        }
    }
}

#[test]
fn cached_time_step_coefficients_match_forced_rebuilds() {
    for scene in SCENES {
        let mut cached = Simulation::new(scene);
        let mut rebuilt = Simulation::new(scene);
        for dt in [1.0 / 30.0, 1.0 / 30.0, 1.0 / 60.0, 1.0 / 60.0, 1.0 / 30.0] {
            cached.step(Double(dt));
            rebuilt.coefficient_dt_bits = u64::MAX;
            rebuilt.step(Double(dt));

            for (cached_body, rebuilt_body) in cached.bodies.iter().zip(&rebuilt.bodies) {
                assert_eq!(array(cached_body.positions), array(rebuilt_body.positions));
                assert_eq!(
                    array(cached_body.predicted_positions),
                    array(rebuilt_body.predicted_positions)
                );
                assert_eq!(
                    cached_body.inertia.0.to_bits(),
                    rebuilt_body.inertia.0.to_bits()
                );
                assert_eq!(
                    cached_body.inverse_diagonal.0.to_bits(),
                    rebuilt_body.inverse_diagonal.0.to_bits()
                );
            }
            assert_eq!(
                history(&cached.previous_positions),
                history(&rebuilt.previous_positions)
            );
            assert_eq!(
                cached.solver_scratch.hub_delta_scale,
                rebuilt.solver_scratch.hub_delta_scale
            );
            assert_eq!(
                cached.previous_velocity_scale.0.to_bits(),
                rebuilt.previous_velocity_scale.0.to_bits()
            );
            let hubs = cached.grid_size * cached.grid_size;
            let mut cached_dual = mabd::dual::DualScratch::new(&cached.joints, hubs);
            let mut rebuilt_dual = mabd::dual::DualScratch::new(&rebuilt.joints, hubs);
            mabd::dual::prepare_direct_joint_solver_reference(
                &cached.bodies,
                &cached.joints,
                &mut cached_dual,
            );
            mabd::dual::prepare_direct_joint_solver_reference(
                &rebuilt.bodies,
                &rebuilt.joints,
                &mut rebuilt_dual,
            );
            assert_eq!(
                cached_dual.rod_inverse_weight,
                rebuilt_dual.rod_inverse_weight
            );
            assert_eq!(
                cached_dual.hub_inverse_rod_weight_sum,
                rebuilt_dual.hub_inverse_rod_weight_sum
            );
            assert_eq!(cached_dual.hub_schur_factor, rebuilt_dual.hub_schur_factor);
        }
    }
}

#[test]
fn contact_scenes_remain_finite_at_supported_fixed_rates() {
    for hz in FIXED_HZ_OPTIONS {
        let dt = 1.0 / hz;
        let step_count = (2.0 * hz) as usize;

        for scene in [DemoScene::CylinderDrape, DemoScene::FallingBalls] {
            let mut simulation = Simulation::new(scene);
            for _ in 0..step_count {
                simulation.step(Double(dt));
            }
            assert!(
                simulation_is_finite(&simulation),
                "{} became non-finite at {hz} Hz",
                scene.title()
            );
        }
    }
}
