#![allow(dead_code, unused_imports)]

use bevy::math::{DMat3, DQuat, DVec3};
use mabd::attachment::{
    attachment_position, interpolate_attachment, project_attachment_pair, rod_collider_attachments,
};
use mabd::body::{
    ball_rest_points, body_rest_points, centroid, hub_attachment_center, hub_center,
    hub_rest_points, rod_center_and_deformation_gradient, rod_deformation_gradient,
    rod_joint_endpoints, rod_rest_points, AffineBody, BodyKind, ControlPoints, Weights,
};
use mabd::constants::{
    CONTACT_PASSES, CONTACT_PROXY_CHUNK_SIZE, DEFAULT_GRID_SIZE, POLAR_NEWTON_ITERATIONS,
};
use mabd::joints::{Attachment, BallJoint, SolverScratch};
use mabd::scalar::Scalar;
use mabd::scene::DemoScene;
use mabd::simulation::NetSimulation;
use mabd::vector::{Mat3, Vec3};

/// Double precision numbers.
#[derive(Clone, Copy, Debug, PartialEq)]
struct Double(f64);

impl Scalar for Double {
    fn plus(self, other: Self) -> Self {
        Double(self.0 + other.0)
    }
    fn add(self, other: Self) -> Self {
        Double(self.0 + other.0)
    }
    fn minus(self, other: Self) -> Self {
        Double(self.0 - other.0)
    }
    fn sub(self, other: Self) -> Self {
        Double(self.0 - other.0)
    }
    fn times(self, other: Self) -> Self {
        Double(self.0 * other.0)
    }
    fn mul(self, other: Self) -> Self {
        Double(self.0 * other.0)
    }
    fn over(self, other: Self) -> Self {
        Double(self.0 / other.0)
    }
    fn div(self, other: Self) -> Self {
        Double(self.0 / other.0)
    }
    fn negated(self) -> Self {
        Double(-self.0)
    }
    fn neg(self) -> Self {
        Double(-self.0)
    }
    fn magnitude(self) -> Self {
        Double(self.0.abs())
    }
    fn abs(self) -> Self {
        Double(self.0.abs())
    }
    fn root(self) -> Self {
        Double(self.0.sqrt())
    }
    fn sqrt(self) -> Self {
        Double(self.0.sqrt())
    }
    fn power(self, exponent: Self) -> Self {
        Double(self.0.powf(exponent.0))
    }
    fn powf(self, exponent: Self) -> Self {
        Double(self.0.powf(exponent.0))
    }
    fn below(self, other: Self) -> bool {
        self.0 < other.0
    }
    fn lt(self, other: Self) -> bool {
        self.0 < other.0
    }
    fn at_most(self, other: Self) -> bool {
        self.0 <= other.0
    }
    fn le(self, other: Self) -> bool {
        self.0 <= other.0
    }
    fn finite(self) -> bool {
        self.0.is_finite()
    }
    fn is_finite(self) -> bool {
        self.0.is_finite()
    }
    fn bits(self) -> u64 {
        self.0.to_bits()
    }
    fn to_bits(self) -> u64 {
        self.0.to_bits()
    }
    fn fraction(numerator: i64, denominator: i64) -> Self {
        Double(numerator as f64 / denominator as f64)
    }
    fn from_fraction(numerator: i64, denominator: i64) -> Self {
        Double(numerator as f64 / denominator as f64)
    }
    fn single_fraction(numerator: i64, denominator: i64) -> Self {
        Double((numerator as f32 / denominator as f32) as f64)
    }
    fn from_single_fraction(numerator: i64, denominator: i64) -> Self {
        Double((numerator as f32 / denominator as f32) as f64)
    }
    fn count(value: usize) -> Self {
        Double(value as f64)
    }
    fn from_count(value: usize) -> Self {
        Double(value as f64)
    }
    fn unbounded() -> Self {
        Double(f64::INFINITY)
    }
    fn infinity() -> Self {
        Double(f64::INFINITY)
    }
    fn turned(direction: Vec3<Self>, point: Vec3<Self>) -> Vec3<Self> {
        Self::turn_from_x(direction, point)
    }
    fn turn_from_x(direction: Vec3<Self>, point: Vec3<Self>) -> Vec3<Self> {
        let rotation = DQuat::from_rotation_arc(DVec3::X, dvec(direction));
        vec3(rotation * dvec(point))
    }
}

type Simulation = NetSimulation<Double>;
type Body = AffineBody<Double>;
type Points = ControlPoints<Double>;

const DEFAULT_FIXED_HZ: f64 = 30.0;
const FIXED_HZ_OPTIONS: [f64; 5] = [30.0, 60.0, 120.0, 200.0, 500.0];
const GRID_SIZE_OPTIONS: [usize; 4] = [10, 25, 50, 100];
const HUB_RADIUS: f32 = 0.075;
const ROD_THICKNESS: f32 = 0.055;
const BALL_RADIUS: f32 = 0.34;
const CONTACT_EPSILON: f64 = 1.0e-12;
const SCENES: [DemoScene; 3] = [
    DemoScene::JointGrid,
    DemoScene::CylinderDrape,
    DemoScene::FallingBalls,
];

fn dvec(value: Vec3<Double>) -> DVec3 {
    DVec3::new(value.x.0, value.y.0, value.z.0)
}

fn vec3(value: DVec3) -> Vec3<Double> {
    Vec3 {
        x: Double(value.x),
        y: Double(value.y),
        z: Double(value.z),
    }
}

fn dvecs(values: &[Vec3<Double>]) -> Vec<DVec3> {
    values.iter().map(|&value| dvec(value)).collect()
}

fn dmat(value: Mat3<Double>) -> DMat3 {
    DMat3::from_cols(dvec(value.x_axis), dvec(value.y_axis), dvec(value.z_axis))
}

fn mat3(value: DMat3) -> Mat3<Double> {
    Mat3 {
        x_axis: vec3(value.x_axis),
        y_axis: vec3(value.y_axis),
        z_axis: vec3(value.z_axis),
    }
}

fn array(points: Points) -> [DVec3; 4] {
    [
        dvec(points.p0),
        dvec(points.p1),
        dvec(points.p2),
        dvec(points.p3),
    ]
}

fn points(values: [DVec3; 4]) -> Points {
    ControlPoints {
        p0: vec3(values[0]),
        p1: vec3(values[1]),
        p2: vec3(values[2]),
        p3: vec3(values[3]),
    }
}

fn positions(bodies: &[Body]) -> Vec<[DVec3; 4]> {
    bodies.iter().map(|body| array(body.positions)).collect()
}

fn history(previous: &[Points]) -> Vec<[DVec3; 4]> {
    previous.iter().map(|&points| array(points)).collect()
}

fn dvec3_bits(value: DVec3) -> [u64; 3] {
    [value.x.to_bits(), value.y.to_bits(), value.z.to_bits()]
}

fn assert_bit_exact(actual: &[Vec3<Double>], expected: &[Vec3<Double>], context: &str) {
    assert_eq!(actual.len(), expected.len(), "{context} length");
    for (index, (&actual, &expected)) in actual.iter().zip(expected).enumerate() {
        assert_eq!(
            dvec3_bits(dvec(actual)),
            dvec3_bits(dvec(expected)),
            "{context} at vector {index}"
        );
    }
}

fn maximum_position_error(first: &[Body], second: &[Body]) -> f64 {
    positions(first)
        .iter()
        .flatten()
        .zip(positions(second).iter().flatten())
        .map(|(first, second)| (*first - *second).length())
        .fold(0.0_f64, f64::max)
}

fn trajectory_errors(first: &[Body], second: &[Body]) -> (f64, f64) {
    let mut squared_error_sum = 0.0;
    let mut point_count = 0;
    let mut maximum_error = 0.0_f64;
    for (first, second) in positions(first).iter().zip(positions(second)) {
        for (first_point, second_point) in first.iter().zip(second) {
            let error = (*first_point - second_point).length();
            squared_error_sum += error * error;
            point_count += 1;
            maximum_error = maximum_error.max(error);
        }
    }
    ((squared_error_sum / point_count as f64).sqrt(), maximum_error)
}

fn component_error(actual: DMat3, expected: DMat3) -> f64 {
    actual
        .to_cols_array()
        .into_iter()
        .zip(expected.to_cols_array())
        .map(|(actual, expected)| (actual - expected).abs())
        .fold(0.0_f64, f64::max)
}

fn orthonormality_error(rotation: DMat3) -> f64 {
    (rotation.transpose() * rotation - DMat3::IDENTITY)
        .to_cols_array()
        .into_iter()
        .map(f64::abs)
        .fold(0.0_f64, f64::max)
}

fn default_step() -> Double {
    Double(1.0 / DEFAULT_FIXED_HZ)
}

fn predict_for_test(simulation: &mut Simulation, dt: Double) {
    for (body, previous) in simulation
        .bodies
        .iter_mut()
        .zip(&mut simulation.previous_positions)
    {
        body.predict(previous, dt);
    }
}

fn simulation_is_finite(simulation: &Simulation) -> bool {
    simulation.bodies.len() == simulation.previous_positions.len()
        && simulation
            .bodies
            .iter()
            .zip(&simulation.previous_positions)
            .all(|(body, previous)| {
                array(body.positions)
                    .iter()
                    .chain(&array(*previous))
                    .chain(&array(body.predicted_positions))
                    .all(|value| value.is_finite())
            })
}

fn maximum_joint_gap(simulation: &Simulation) -> f64 {
    simulation
        .joints
        .iter()
        .map(|joint| {
            (dvec(attachment_position(&simulation.bodies, joint.a))
                - dvec(attachment_position(&simulation.bodies, joint.b)))
            .length()
        })
        .fold(0.0, f64::max)
}

fn scratch_for(bodies: &[Body], joints: &[BallJoint<Double>], hubs: usize) -> SolverScratch<Double> {
    SolverScratch::new(bodies.len(), joints.len(), hubs)
}

const AFFINE_STIFFNESS: f64 = 12_000.0;

fn shape_reference(body: &mut Body) {
    if body.fixed {
        return;
    }

    let center = dvec(body.centroid());
    let rotation = match body.kind {
        BodyKind::Rod => dmat(mabd::polar::closest_rotation(rod_deformation_gradient(
            body.positions,
        ))),
        BodyKind::Hub { .. } | BodyKind::Ball => DMat3::IDENTITY,
    };
    let rest_points = array(body_rest_points(body.kind));
    let predicted = array(body.predicted_positions);
    let mut moved = [DVec3::ZERO; 4];
    for index in 0..4 {
        let rigid_target = center + rotation * rest_points[index];
        moved[index] = (predicted[index] * body.inertia.0 + rigid_target * AFFINE_STIFFNESS)
            * body.inverse_diagonal.0;
    }
    body.positions = points(moved);
}

#[test]
fn weighted_shape_projection_matches_reference() {
    for scene in SCENES {
        let mut simulation = Simulation::new(scene);
        for _ in 0..20 {
            simulation.step(default_step());
        }

        let mut maximum_error = 0.0_f64;
        for body in &simulation.bodies {
            let mut specialized = *body;
            let mut reference = *body;
            specialized.project_corotated_shape();
            shape_reference(&mut reference);
            for (specialized, reference) in array(specialized.positions)
                .into_iter()
                .zip(array(reference.positions))
            {
                maximum_error = maximum_error.max((specialized - reference).length());
            }
        }
        assert!(
            maximum_error < 2.0e-15,
            "{} weighted shape projection error: {maximum_error}",
            scene.title()
        );
    }
}

#[test]
fn center_attached_bodies_remain_unrotated() {
    for scene in SCENES {
        let mut simulation = Simulation::new(scene);
        for _ in 0..150 {
            simulation.step(default_step());
        }

        let mut maximum_shape_error = 0.0_f64;
        let mut maximum_displacement_spread = 0.0_f64;
        for (body, previous) in simulation.bodies.iter().zip(&simulation.previous_positions) {
            if !matches!(body.kind, BodyKind::Hub { .. } | BodyKind::Ball) {
                continue;
            }

            let center = dvec(body.centroid());
            let rest_points = array(body_rest_points(body.kind));
            let here = array(body.positions);
            let before = array(*previous);
            for index in 0..4 {
                maximum_shape_error = maximum_shape_error
                    .max((here[index] - center - rest_points[index]).length());
                let displacement = here[index] - before[index];
                let first_displacement = here[0] - before[0];
                maximum_displacement_spread = maximum_displacement_spread
                    .max((displacement - first_displacement).length());
            }
        }

        assert!(
            maximum_shape_error < 1.0e-10,
            "{} center-attached shape error: {maximum_shape_error}",
            scene.title()
        );
        assert!(
            maximum_displacement_spread < 1.0e-10,
            "{} center-attached displacement spread: {maximum_displacement_spread}",
            scene.title()
        );
    }
}

#[test]
fn rod_deformation_gradient_matches_generic_affine_form() {
    for scene in SCENES {
        let mut simulation = Simulation::new(scene);
        for _ in 0..20 {
            simulation.step(default_step());
        }

        let mut maximum_error = 0.0_f64;
        for body in &simulation.bodies {
            if !matches!(body.kind, BodyKind::Rod) {
                continue;
            }

            let center = dvec(body.centroid());
            let here = array(body.positions);
            let rest_points = array(rod_rest_points());
            let covariance = (0..4).fold(DMat3::ZERO, |sum, index| {
                let position = here[index] - center;
                let rest = rest_points[index];
                sum + DMat3::from_cols(position * rest.x, position * rest.y, position * rest.z)
            });
            let rest_covariance = rest_points.iter().fold(DMat3::ZERO, |sum, rest| {
                sum + DMat3::from_cols(*rest * rest.x, *rest * rest.y, *rest * rest.z)
            });
            let expected = covariance * rest_covariance.inverse();
            let actual = dmat(rod_deformation_gradient(body.positions));
            maximum_error = maximum_error.max(component_error(actual, expected));
        }

        assert!(
            maximum_error < 1.0e-11,
            "{} specialized rod gradient error: {maximum_error}",
            scene.title()
        );
    }
}

#[test]
fn fused_rod_geometry_preserves_legacy_trajectory() {
    let mut maximum_center_error = 0.0_f64;
    let mut maximum_gradient_error = 0.0_f64;
    for grid_size in [10, 25, 50, 100] {
        for scene in SCENES {
            let mut simulation = Simulation::with_grid_size(scene, grid_size);
            for step in 0..=20 {
                if matches!(step, 0 | 20) {
                    let hub_count = grid_size * grid_size;
                    let rod_count = simulation.joints.len() / 2;
                    for rod in &simulation.bodies[hub_count..hub_count + rod_count] {
                        let (center, gradient) =
                            rod_center_and_deformation_gradient(rod.positions);
                        maximum_center_error = maximum_center_error
                            .max((dvec(center) - dvec(centroid(rod.positions))).length());
                        maximum_gradient_error = maximum_gradient_error.max(component_error(
                            dmat(gradient),
                            dmat(rod_deformation_gradient(rod.positions)),
                        ));
                    }
                }
                if step < 20 {
                    simulation.step(default_step());
                }
            }
        }
    }
    assert!(
        maximum_center_error < 5.0e-14,
        "fused rod center error: {maximum_center_error}"
    );
    assert!(
        maximum_gradient_error < 5.0e-14,
        "fused rod gradient error: {maximum_gradient_error}"
    );

    for scene in SCENES {
        let mut fused = Simulation::new(scene);
        let mut legacy = Simulation::new(scene);
        for _ in 0..150 {
            fused.step(default_step());
            legacy.step_with_joint_projection::<POLAR_NEWTON_ITERATIONS, true, false, true>(
                default_step(),
            );
        }

        let (rms_error, maximum_error) = trajectory_errors(&fused.bodies, &legacy.bodies);
        assert!(
            rms_error < 1.0e-9,
            "{} fused rod geometry RMS trajectory error: {rms_error}",
            scene.title()
        );
        assert!(
            maximum_error < 1.0e-8,
            "{} fused rod geometry maximum trajectory error: {maximum_error}",
            scene.title()
        );
    }
}
