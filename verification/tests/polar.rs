#![allow(dead_code, unused_imports)]

use bevy::math::{DMat3, DQuat, DVec3};
use mabd::attachment::{
    attachment_position, interpolate_attachment, project_attachment_pair, rod_collider_attachments,
};
use mabd::body::{
    ball_rest_points, body_rest_points, centroid, hub_attachment_center, hub_center,
    hub_rest_points, rod_center_and_deformation_gradient, rod_deformation_gradient,
    rod_joint_endpoints, rod_rest_points, AffineBody, BodyKind, ControlPoints, Weights,
};
use mabd::constants::{
    CONTACT_PASSES, CONTACT_PROXY_CHUNK_SIZE, DEFAULT_GRID_SIZE, POLAR_NEWTON_ITERATIONS,
};
use mabd::joints::{Attachment, BallJoint, SolverScratch};
use mabd::scalar::Scalar;
use mabd::scene::DemoScene;
use mabd::simulation::NetSimulation;
use mabd::vector::{Mat3, Vec3};

/// Double precision numbers.
#[derive(Clone, Copy, Debug, PartialEq)]
struct Double(f64);

impl Scalar for Double {
    fn plus(self, other: Self) -> Self {
        Double(self.0 + other.0)
    }
    fn add(self, other: Self) -> Self {
        Double(self.0 + other.0)
    }
    fn minus(self, other: Self) -> Self {
        Double(self.0 - other.0)
    }
    fn sub(self, other: Self) -> Self {
        Double(self.0 - other.0)
    }
    fn times(self, other: Self) -> Self {
        Double(self.0 * other.0)
    }
    fn mul(self, other: Self) -> Self {
        Double(self.0 * other.0)
    }
    fn over(self, other: Self) -> Self {
        Double(self.0 / other.0)
    }
    fn div(self, other: Self) -> Self {
        Double(self.0 / other.0)
    }
    fn negated(self) -> Self {
        Double(-self.0)
    }
    fn neg(self) -> Self {
        Double(-self.0)
    }
    fn magnitude(self) -> Self {
        Double(self.0.abs())
    }
    fn abs(self) -> Self {
        Double(self.0.abs())
    }
    fn root(self) -> Self {
        Double(self.0.sqrt())
    }
    fn sqrt(self) -> Self {
        Double(self.0.sqrt())
    }
    fn power(self, exponent: Self) -> Self {
        Double(self.0.powf(exponent.0))
    }
    fn powf(self, exponent: Self) -> Self {
        Double(self.0.powf(exponent.0))
    }
    fn below(self, other: Self) -> bool {
        self.0 < other.0
    }
    fn lt(self, other: Self) -> bool {
        self.0 < other.0
    }
    fn at_most(self, other: Self) -> bool {
        self.0 <= other.0
    }
    fn le(self, other: Self) -> bool {
        self.0 <= other.0
    }
    fn finite(self) -> bool {
        self.0.is_finite()
    }
    fn is_finite(self) -> bool {
        self.0.is_finite()
    }
    fn bits(self) -> u64 {
        self.0.to_bits()
    }
    fn to_bits(self) -> u64 {
        self.0.to_bits()
    }
    fn fraction(numerator: i64, denominator: i64) -> Self {
        Double(numerator as f64 / denominator as f64)
    }
    fn from_fraction(numerator: i64, denominator: i64) -> Self {
        Double(numerator as f64 / denominator as f64)
    }
    fn single_fraction(numerator: i64, denominator: i64) -> Self {
        Double((numerator as f32 / denominator as f32) as f64)
    }
    fn from_single_fraction(numerator: i64, denominator: i64) -> Self {
        Double((numerator as f32 / denominator as f32) as f64)
    }
    fn count(value: usize) -> Self {
        Double(value as f64)
    }
    fn from_count(value: usize) -> Self {
        Double(value as f64)
    }
    fn unbounded() -> Self {
        Double(f64::INFINITY)
    }
    fn infinity() -> Self {
        Double(f64::INFINITY)
    }
    fn turned(direction: Vec3<Self>, point: Vec3<Self>) -> Vec3<Self> {
        Self::turn_from_x(direction, point)
    }
    fn turn_from_x(direction: Vec3<Self>, point: Vec3<Self>) -> Vec3<Self> {
        let rotation = DQuat::from_rotation_arc(DVec3::X, dvec(direction));
        vec3(rotation * dvec(point))
    }
}

type Simulation = NetSimulation<Double>;
type Body = AffineBody<Double>;
type Points = ControlPoints<Double>;

const DEFAULT_FIXED_HZ: f64 = 30.0;
const FIXED_HZ_OPTIONS: [f64; 5] = [30.0, 60.0, 120.0, 200.0, 500.0];
const GRID_SIZE_OPTIONS: [usize; 4] = [10, 25, 50, 100];
const HUB_RADIUS: f32 = 0.075;
const ROD_THICKNESS: f32 = 0.055;
const BALL_RADIUS: f32 = 0.34;
const CONTACT_EPSILON: f64 = 1.0e-12;
const SCENES: [DemoScene; 3] = [
    DemoScene::JointGrid,
    DemoScene::CylinderDrape,
    DemoScene::FallingBalls,
];

fn dvec(value: Vec3<Double>) -> DVec3 {
    DVec3::new(value.x.0, value.y.0, value.z.0)
}

fn vec3(value: DVec3) -> Vec3<Double> {
    Vec3 {
        x: Double(value.x),
        y: Double(value.y),
        z: Double(value.z),
    }
}

fn dvecs(values: &[Vec3<Double>]) -> Vec<DVec3> {
    values.iter().map(|&value| dvec(value)).collect()
}

fn dmat(value: Mat3<Double>) -> DMat3 {
    DMat3::from_cols(dvec(value.x_axis), dvec(value.y_axis), dvec(value.z_axis))
}

fn mat3(value: DMat3) -> Mat3<Double> {
    Mat3 {
        x_axis: vec3(value.x_axis),
        y_axis: vec3(value.y_axis),
        z_axis: vec3(value.z_axis),
    }
}

fn array(points: Points) -> [DVec3; 4] {
    [
        dvec(points.p0),
        dvec(points.p1),
        dvec(points.p2),
        dvec(points.p3),
    ]
}

fn points(values: [DVec3; 4]) -> Points {
    ControlPoints {
        p0: vec3(values[0]),
        p1: vec3(values[1]),
        p2: vec3(values[2]),
        p3: vec3(values[3]),
    }
}

fn positions(bodies: &[Body]) -> Vec<[DVec3; 4]> {
    bodies.iter().map(|body| array(body.positions)).collect()
}

fn history(previous: &[Points]) -> Vec<[DVec3; 4]> {
    previous.iter().map(|&points| array(points)).collect()
}

fn dvec3_bits(value: DVec3) -> [u64; 3] {
    [value.x.to_bits(), value.y.to_bits(), value.z.to_bits()]
}

fn assert_bit_exact(actual: &[Vec3<Double>], expected: &[Vec3<Double>], context: &str) {
    assert_eq!(actual.len(), expected.len(), "{context} length");
    for (index, (&actual, &expected)) in actual.iter().zip(expected).enumerate() {
        assert_eq!(
            dvec3_bits(dvec(actual)),
            dvec3_bits(dvec(expected)),
            "{context} at vector {index}"
        );
    }
}

fn maximum_position_error(first: &[Body], second: &[Body]) -> f64 {
    positions(first)
        .iter()
        .flatten()
        .zip(positions(second).iter().flatten())
        .map(|(first, second)| (*first - *second).length())
        .fold(0.0_f64, f64::max)
}

fn trajectory_errors(first: &[Body], second: &[Body]) -> (f64, f64) {
    let mut squared_error_sum = 0.0;
    let mut point_count = 0;
    let mut maximum_error = 0.0_f64;
    for (first, second) in positions(first).iter().zip(positions(second)) {
        for (first_point, second_point) in first.iter().zip(second) {
            let error = (*first_point - second_point).length();
            squared_error_sum += error * error;
            point_count += 1;
            maximum_error = maximum_error.max(error);
        }
    }
    ((squared_error_sum / point_count as f64).sqrt(), maximum_error)
}

fn component_error(actual: DMat3, expected: DMat3) -> f64 {
    actual
        .to_cols_array()
        .into_iter()
        .zip(expected.to_cols_array())
        .map(|(actual, expected)| (actual - expected).abs())
        .fold(0.0_f64, f64::max)
}

fn orthonormality_error(rotation: DMat3) -> f64 {
    (rotation.transpose() * rotation - DMat3::IDENTITY)
        .to_cols_array()
        .into_iter()
        .map(f64::abs)
        .fold(0.0_f64, f64::max)
}

fn default_step() -> Double {
    Double(1.0 / DEFAULT_FIXED_HZ)
}

fn predict_for_test(simulation: &mut Simulation, dt: Double) {
    for (body, previous) in simulation
        .bodies
        .iter_mut()
        .zip(&mut simulation.previous_positions)
    {
        body.predict(previous, dt);
    }
}

fn simulation_is_finite(simulation: &Simulation) -> bool {
    simulation.bodies.len() == simulation.previous_positions.len()
        && simulation
            .bodies
            .iter()
            .zip(&simulation.previous_positions)
            .all(|(body, previous)| {
                array(body.positions)
                    .iter()
                    .chain(&array(*previous))
                    .chain(&array(body.predicted_positions))
                    .all(|value| value.is_finite())
            })
}

fn maximum_joint_gap(simulation: &Simulation) -> f64 {
    simulation
        .joints
        .iter()
        .map(|joint| {
            (dvec(attachment_position(&simulation.bodies, joint.a))
                - dvec(attachment_position(&simulation.bodies, joint.b)))
            .length()
        })
        .fold(0.0, f64::max)
}

fn scratch_for(bodies: &[Body], joints: &[BallJoint<Double>], hubs: usize) -> SolverScratch<Double> {
    SolverScratch::new(bodies.len(), joints.len(), hubs)
}

use mabd::pair::closest_rotation_pair_2;
use mabd::polar::{
    closest_rotation, closest_rotation_with_divisive_final, closest_rotation_with_iterations,
    orthonormalize_rotation,
};
use mabd::shapes::project_rod_shapes;

fn reference_rotation(matrix: DMat3, iterations: usize) -> DMat3 {
    let mut rotation = matrix;
    for _ in 0..iterations {
        if rotation.determinant().abs() <= 1.0e-12 {
            break;
        }
        rotation = (rotation + rotation.inverse().transpose()) * 0.5;
    }

    let x = rotation.x_axis.normalize_or_zero();
    let mut y = (rotation.y_axis - x * x.dot(rotation.y_axis)).normalize_or_zero();
    if x.length_squared() <= 1.0e-12 || y.length_squared() <= 1.0e-12 {
        return DMat3::IDENTITY;
    }
    let mut z = x.cross(y).normalize_or_zero();
    if z.dot(rotation.z_axis) < 0.0 {
        z = -z;
    }
    y = z.cross(x).normalize_or_zero();
    DMat3::from_cols(x, y, z)
}

fn rotation_after<const ITERATIONS: usize>(matrix: DMat3) -> DMat3 {
    dmat(closest_rotation_with_iterations::<Double, ITERATIONS>(mat3(
        matrix,
    )))
}

fn divisive_rotation_after<const ITERATIONS: usize>(matrix: DMat3) -> DMat3 {
    dmat(closest_rotation_with_divisive_final::<Double, ITERATIONS>(
        mat3(matrix),
    ))
}

fn rotation_pair(first: DMat3, second: DMat3) -> Option<(DMat3, DMat3)> {
    closest_rotation_pair_2(mat3(first), mat3(second))
        .map(|(first, second)| (dmat(first), dmat(second)))
}

fn compare_corpus<const ITERATIONS: usize>(matrices: &[DMat3]) -> f64 {
    matrices.iter().fold(0.0_f64, |maximum, &matrix| {
        maximum.max(component_error(
            rotation_after::<ITERATIONS>(matrix),
            divisive_rotation_after::<ITERATIONS>(matrix),
        ))
    })
}

fn assert_matrix_bits_eq(actual: DMat3, expected: DMat3, context: &str) {
    for (component, (actual, expected)) in actual
        .to_cols_array()
        .into_iter()
        .zip(expected.to_cols_array())
        .enumerate()
    {
        assert_eq!(
            actual.to_bits(),
            expected.to_bits(),
            "{context} component {component}"
        );
    }
}

#[test]
fn optimized_rotation_tail_matches_legacy_tail() {
    let mut maximum_component_error = 0.0_f64;
    let mut maximum_orthonormality_error = 0.0_f64;

    for scene in SCENES {
        let mut simulation = Simulation::new(scene);
        for step in 0..=150 {
            if matches!(step, 0 | 20 | 150) {
                for body in &simulation.bodies {
                    if !matches!(body.kind, BodyKind::Rod) {
                        continue;
                    }
                    let gradient = rod_deformation_gradient(body.positions);
                    let optimized = dmat(closest_rotation(gradient));
                    let legacy = reference_rotation(dmat(gradient), POLAR_NEWTON_ITERATIONS);
                    maximum_component_error =
                        maximum_component_error.max(component_error(optimized, legacy));
                    maximum_orthonormality_error =
                        maximum_orthonormality_error.max(orthonormality_error(optimized));
                }
            }
            if step < 150 {
                simulation.step(default_step());
            }
        }
    }

    assert_eq!(dmat(closest_rotation(mat3(DMat3::ZERO))), DMat3::IDENTITY);
    assert_eq!(
        reference_rotation(DMat3::ZERO, POLAR_NEWTON_ITERATIONS),
        DMat3::IDENTITY
    );
    assert!(
        maximum_component_error < 2.0e-14,
        "optimized-vs-legacy rotation error: {maximum_component_error}"
    );
    assert!(
        maximum_orthonormality_error < 2.0e-14,
        "optimized rotation orthonormality error: {maximum_orthonormality_error}"
    );
}

#[test]
fn paired_polar_matches_scalar_bit_exactly() {
    let rotation = DMat3::from_quat(
        DQuat::from_rotation_x(0.37) * DQuat::from_rotation_y(-0.61) * DQuat::from_rotation_z(0.19),
    );
    let pairs = [
        (
            DMat3::IDENTITY,
            DMat3::from_diagonal(DVec3::new(0.35, 1.7, 3.2)),
        ),
        (
            rotation * DMat3::from_diagonal(DVec3::new(0.6, 1.4, 2.1)),
            DMat3::from_cols(
                DVec3::new(1.0, 0.2, -0.1),
                DVec3::new(0.35, 0.9, 0.15),
                DVec3::new(-0.2, 0.1, 1.3),
            ),
        ),
        (
            DMat3::from_diagonal(DVec3::new(-1.0, 1.0, 1.0)),
            rotation * DMat3::from_diagonal(DVec3::new(-0.8, 1.2, 1.6)),
        ),
        (DMat3::ZERO, DMat3::ZERO),
        (
            DMat3::from_diagonal(DVec3::splat(1.0e-14)),
            DMat3::from_diagonal(DVec3::splat(1.0e-14)),
        ),
    ];

    for (index, (first, second)) in pairs.into_iter().enumerate() {
        let (paired_first, paired_second) = rotation_pair(first, second)
            .unwrap_or_else(|| panic!("pair {index} unexpectedly required fallback"));
        assert_matrix_bits_eq(
            paired_first,
            rotation_after::<2>(first),
            &format!("pair {index} first lane"),
        );
        assert_matrix_bits_eq(
            paired_second,
            rotation_after::<2>(second),
            &format!("pair {index} second lane"),
        );

        let (swapped_second, swapped_first) = rotation_pair(second, first)
            .unwrap_or_else(|| panic!("swapped pair {index} unexpectedly required fallback"));
        assert_matrix_bits_eq(
            swapped_first,
            paired_first,
            &format!("pair {index} lane swap"),
        );
        assert_matrix_bits_eq(
            swapped_second,
            paired_second,
            &format!("pair {index} lane swap"),
        );
    }

    assert!(rotation_pair(DMat3::IDENTITY, DMat3::ZERO).is_none());
    assert!(rotation_pair(
        DMat3::IDENTITY,
        DMat3::from_diagonal(DVec3::new(-1.0, 1.0, 1.0)),
    )
    .is_none());
    let nan_matrix = DMat3::from_cols(DVec3::NAN, DVec3::NAN, DVec3::NAN);
    assert!(rotation_pair(DMat3::IDENTITY, nan_matrix).is_none());
}

#[test]
fn paired_rod_shape_projection_matches_scalar_bit_exactly() {
    let mut simulation = Simulation::with_grid_size(DemoScene::JointGrid, 3);
    predict_for_test(&mut simulation, default_step());
    let hub_count = simulation.grid_size * simulation.grid_size;
    let mut paired = simulation.bodies[hub_count..hub_count + 3].to_vec();
    let collapsed = dvec(paired[1].positions.p0);
    paired[1].positions = points([collapsed; 4]);
    let mut scalar = paired.clone();
    let mut paired_endpoints = vec![vec3(DVec3::ZERO); 6];
    let mut scalar_endpoints = vec![vec3(DVec3::ZERO); 6];

    project_rod_shapes::<Double, 2, true, true, true>(&mut paired, &mut paired_endpoints);
    project_rod_shapes::<Double, 2, true, true, false>(&mut scalar, &mut scalar_endpoints);

    for (body_index, (paired, scalar)) in
        positions(&paired).into_iter().zip(positions(&scalar)).enumerate()
    {
        for point in 0..4 {
            assert_eq!(
                dvec3_bits(paired[point]),
                dvec3_bits(scalar[point]),
                "body {body_index} point {point}"
            );
        }
    }
    assert_bit_exact(&paired_endpoints, &scalar_endpoints, "paired rod endpoints");
}

#[test]
fn division_free_final_polar_round_matches_divisive_reference() {
    let rotation = DMat3::from_quat(
        DQuat::from_rotation_x(0.37) * DQuat::from_rotation_y(-0.61) * DQuat::from_rotation_z(0.19),
    );
    let corpus = [
        DMat3::IDENTITY,
        DMat3::from_diagonal(DVec3::new(0.35, 1.7, 3.2)),
        rotation * DMat3::from_diagonal(DVec3::new(0.6, 1.4, 2.1)),
        DMat3::from_cols(
            DVec3::new(1.0, 0.2, -0.1),
            DVec3::new(0.35, 0.9, 0.15),
            DVec3::new(-0.2, 0.1, 1.3),
        ),
        DMat3::from_diagonal(DVec3::new(-1.0, 1.0, 1.0)),
        DMat3::ZERO,
        DMat3::from_diagonal(DVec3::new(1.0e-14, 1.0, 1.0)),
        DMat3::from_diagonal(DVec3::splat(1.0e100)),
    ];
    let corpus_error = compare_corpus::<1>(&corpus)
        .max(compare_corpus::<2>(&corpus))
        .max(compare_corpus::<3>(&corpus));

    for matrix in &corpus[5..] {
        assert_eq!(
            rotation_after::<2>(*matrix),
            divisive_rotation_after::<2>(*matrix)
        );
    }

    let mut maximum_live_error = 0.0_f64;
    let mut maximum_orthonormality_error = 0.0_f64;
    for scene in SCENES {
        let mut simulation = Simulation::new(scene);
        for step in 0..=150 {
            if matches!(step, 0 | 20 | 150) {
                for body in &simulation.bodies {
                    if !matches!(body.kind, BodyKind::Rod) {
                        continue;
                    }
                    let gradient = rod_deformation_gradient(body.positions);
                    let optimized = dmat(closest_rotation(gradient));
                    let divisive = dmat(closest_rotation_with_divisive_final::<
                        Double,
                        POLAR_NEWTON_ITERATIONS,
                    >(gradient));
                    maximum_live_error =
                        maximum_live_error.max(component_error(optimized, divisive));
                    maximum_orthonormality_error =
                        maximum_orthonormality_error.max(orthonormality_error(optimized));
                }
            }
            if step < 150 {
                simulation.step(default_step());
            }
        }
    }

    assert!(
        corpus_error < 1.0e-12,
        "division-free polar corpus error: {corpus_error}"
    );
    assert!(
        maximum_live_error < 5.0e-14,
        "division-free polar live error: {maximum_live_error}"
    );
    assert!(
        maximum_orthonormality_error < 2.0e-14,
        "division-free polar orthonormality error: {maximum_orthonormality_error}"
    );
}

#[test]
fn division_free_final_polar_round_preserves_trajectory() {
    for scene in SCENES {
        let mut optimized = Simulation::new(scene);
        let mut reference = Simulation::new(scene);
        for _ in 0..150 {
            optimized.step(default_step());
            reference.step_with_joint_projection::<POLAR_NEWTON_ITERATIONS, false, true, true>(
                default_step(),
            );
        }

        let (rms_error, maximum_error) = trajectory_errors(&optimized.bodies, &reference.bodies);
        assert!(simulation_is_finite(&optimized));
        assert!(simulation_is_finite(&reference));
        assert!(
            rms_error < 1.0e-9,
            "{} division-free polar RMS trajectory error: {rms_error}",
            scene.title()
        );
        assert!(
            maximum_error < 1.0e-8,
            "{} division-free polar maximum trajectory error: {maximum_error}",
            scene.title()
        );
    }
}

#[test]
fn two_polar_iterations_match_higher_iteration_references() {
    for scene in SCENES {
        let mut simulation = Simulation::new(scene);
        let mut maximum_two_iteration_error = 0.0_f64;
        let mut maximum_three_iteration_error = 0.0_f64;
        for _ in 0..150 {
            simulation.step(default_step());
            for body in &simulation.bodies {
                if !matches!(body.kind, BodyKind::Rod) {
                    continue;
                }
                let gradient = rod_deformation_gradient(body.positions);
                let three_iteration = reference_rotation(dmat(gradient), 3);
                let five_iteration = reference_rotation(dmat(gradient), 5);
                maximum_two_iteration_error = maximum_two_iteration_error.max(component_error(
                    dmat(closest_rotation(gradient)),
                    three_iteration,
                ));
                maximum_three_iteration_error = maximum_three_iteration_error
                    .max(component_error(three_iteration, five_iteration));
            }
        }
        assert!(
            maximum_two_iteration_error < 2.0e-6,
            "{} two-iteration polar error: {maximum_two_iteration_error}",
            scene.title()
        );
        assert!(
            maximum_three_iteration_error < 2.0e-9,
            "{} three-iteration polar error: {maximum_three_iteration_error}",
            scene.title()
        );
    }
}

#[test]
fn two_polar_iterations_preserve_three_iteration_trajectory() {
    for scene in SCENES {
        let mut optimized = Simulation::new(scene);
        let mut reference = Simulation::new(scene);
        for _ in 0..150 {
            optimized.step(default_step());
            reference.step_with_polar_iterations::<3>(default_step());
        }

        let (rms_error, maximum_error) = trajectory_errors(&optimized.bodies, &reference.bodies);
        assert!(simulation_is_finite(&optimized));
        assert!(simulation_is_finite(&reference));
        assert!(
            rms_error < 1.0e-5,
            "{} two-vs-three polar RMS trajectory error: {rms_error}",
            scene.title()
        );
        assert!(
            maximum_error < 5.0e-5,
            "{} two-vs-three polar maximum trajectory error: {maximum_error}",
            scene.title()
        );
    }
}

#[test]
fn orthonormal_columns_follow_the_first_two_axes() {
    let skewed = DMat3::from_cols(
        DVec3::new(2.0, 0.0, 0.0),
        DVec3::new(5.0, 4.0, 0.0),
        DVec3::new(1.0, 1.0, 0.5),
    );
    assert_eq!(
        dmat(orthonormalize_rotation(mat3(skewed))),
        DMat3::IDENTITY
    );
    let mirrored = DMat3::from_cols(DVec3::X, DVec3::Y, -DVec3::Z);
    assert_eq!(
        dmat(orthonormalize_rotation(mat3(mirrored))),
        DMat3::from_cols(DVec3::X, -DVec3::Y, -DVec3::Z)
    );
    let flat = DMat3::from_cols(DVec3::X, DVec3::X, DVec3::Z);
    assert_eq!(dmat(orthonormalize_rotation(mat3(flat))), DMat3::IDENTITY);
}
