#![allow(dead_code, unused_imports)]

use bevy::math::{DMat3, DQuat, DVec3};
use mabd::attachment::{
    attachment_position, interpolate_attachment, project_attachment_pair, rod_collider_attachments,
};
use mabd::body::{
    ball_rest_points, body_rest_points, centroid, hub_attachment_center, hub_center,
    hub_rest_points, rod_center_and_deformation_gradient, rod_deformation_gradient,
    rod_joint_endpoints, rod_rest_points, AffineBody, BodyKind, ControlPoints, Weights,
};
use mabd::constants::{
    CONTACT_PASSES, CONTACT_PROXY_CHUNK_SIZE, DEFAULT_GRID_SIZE, POLAR_NEWTON_ITERATIONS,
};
use mabd::joints::{Attachment, BallJoint, SolverScratch};
use mabd::scalar::Scalar;
use mabd::scene::DemoScene;
use mabd::simulation::NetSimulation;
use mabd::vector::{Mat3, Vec3};

/// Double precision numbers.
#[derive(Clone, Copy, Debug, PartialEq)]
struct Double(f64);

impl Scalar for Double {
    fn plus(self, other: Self) -> Self {
        Double(self.0 + other.0)
    }
    fn add(self, other: Self) -> Self {
        Double(self.0 + other.0)
    }
    fn minus(self, other: Self) -> Self {
        Double(self.0 - other.0)
    }
    fn sub(self, other: Self) -> Self {
        Double(self.0 - other.0)
    }
    fn times(self, other: Self) -> Self {
        Double(self.0 * other.0)
    }
    fn mul(self, other: Self) -> Self {
        Double(self.0 * other.0)
    }
    fn over(self, other: Self) -> Self {
        Double(self.0 / other.0)
    }
    fn div(self, other: Self) -> Self {
        Double(self.0 / other.0)
    }
    fn negated(self) -> Self {
        Double(-self.0)
    }
    fn neg(self) -> Self {
        Double(-self.0)
    }
    fn magnitude(self) -> Self {
        Double(self.0.abs())
    }
    fn abs(self) -> Self {
        Double(self.0.abs())
    }
    fn root(self) -> Self {
        Double(self.0.sqrt())
    }
    fn sqrt(self) -> Self {
        Double(self.0.sqrt())
    }
    fn power(self, exponent: Self) -> Self {
        Double(self.0.powf(exponent.0))
    }
    fn powf(self, exponent: Self) -> Self {
        Double(self.0.powf(exponent.0))
    }
    fn below(self, other: Self) -> bool {
        self.0 < other.0
    }
    fn lt(self, other: Self) -> bool {
        self.0 < other.0
    }
    fn at_most(self, other: Self) -> bool {
        self.0 <= other.0
    }
    fn le(self, other: Self) -> bool {
        self.0 <= other.0
    }
    fn finite(self) -> bool {
        self.0.is_finite()
    }
    fn is_finite(self) -> bool {
        self.0.is_finite()
    }
    fn bits(self) -> u64 {
        self.0.to_bits()
    }
    fn to_bits(self) -> u64 {
        self.0.to_bits()
    }
    fn fraction(numerator: i64, denominator: i64) -> Self {
        Double(numerator as f64 / denominator as f64)
    }
    fn from_fraction(numerator: i64, denominator: i64) -> Self {
        Double(numerator as f64 / denominator as f64)
    }
    fn single_fraction(numerator: i64, denominator: i64) -> Self {
        Double((numerator as f32 / denominator as f32) as f64)
    }
    fn from_single_fraction(numerator: i64, denominator: i64) -> Self {
        Double((numerator as f32 / denominator as f32) as f64)
    }
    fn count(value: usize) -> Self {
        Double(value as f64)
    }
    fn from_count(value: usize) -> Self {
        Double(value as f64)
    }
    fn unbounded() -> Self {
        Double(f64::INFINITY)
    }
    fn infinity() -> Self {
        Double(f64::INFINITY)
    }
    fn turned(direction: Vec3<Self>, point: Vec3<Self>) -> Vec3<Self> {
        Self::turn_from_x(direction, point)
    }
    fn turn_from_x(direction: Vec3<Self>, point: Vec3<Self>) -> Vec3<Self> {
        let rotation = DQuat::from_rotation_arc(DVec3::X, dvec(direction));
        vec3(rotation * dvec(point))
    }
}

type Simulation = NetSimulation<Double>;
type Body = AffineBody<Double>;
type Points = ControlPoints<Double>;

const DEFAULT_FIXED_HZ: f64 = 30.0;
const FIXED_HZ_OPTIONS: [f64; 5] = [30.0, 60.0, 120.0, 200.0, 500.0];
const GRID_SIZE_OPTIONS: [usize; 4] = [10, 25, 50, 100];
const HUB_RADIUS: f32 = 0.075;
const ROD_THICKNESS: f32 = 0.055;
const BALL_RADIUS: f32 = 0.34;
const CONTACT_EPSILON: f64 = 1.0e-12;
const SCENES: [DemoScene; 3] = [
    DemoScene::JointGrid,
    DemoScene::CylinderDrape,
    DemoScene::FallingBalls,
];

fn dvec(value: Vec3<Double>) -> DVec3 {
    DVec3::new(value.x.0, value.y.0, value.z.0)
}

fn vec3(value: DVec3) -> Vec3<Double> {
    Vec3 {
        x: Double(value.x),
        y: Double(value.y),
        z: Double(value.z),
    }
}

fn dvecs(values: &[Vec3<Double>]) -> Vec<DVec3> {
    values.iter().map(|&value| dvec(value)).collect()
}

fn dmat(value: Mat3<Double>) -> DMat3 {
    DMat3::from_cols(dvec(value.x_axis), dvec(value.y_axis), dvec(value.z_axis))
}

fn mat3(value: DMat3) -> Mat3<Double> {
    Mat3 {
        x_axis: vec3(value.x_axis),
        y_axis: vec3(value.y_axis),
        z_axis: vec3(value.z_axis),
    }
}

fn array(points: Points) -> [DVec3; 4] {
    [
        dvec(points.p0),
        dvec(points.p1),
        dvec(points.p2),
        dvec(points.p3),
    ]
}

fn points(values: [DVec3; 4]) -> Points {
    ControlPoints {
        p0: vec3(values[0]),
        p1: vec3(values[1]),
        p2: vec3(values[2]),
        p3: vec3(values[3]),
    }
}

fn positions(bodies: &[Body]) -> Vec<[DVec3; 4]> {
    bodies.iter().map(|body| array(body.positions)).collect()
}

fn history(previous: &[Points]) -> Vec<[DVec3; 4]> {
    previous.iter().map(|&points| array(points)).collect()
}

fn dvec3_bits(value: DVec3) -> [u64; 3] {
    [value.x.to_bits(), value.y.to_bits(), value.z.to_bits()]
}

fn assert_bit_exact(actual: &[Vec3<Double>], expected: &[Vec3<Double>], context: &str) {
    assert_eq!(actual.len(), expected.len(), "{context} length");
    for (index, (&actual, &expected)) in actual.iter().zip(expected).enumerate() {
        assert_eq!(
            dvec3_bits(dvec(actual)),
            dvec3_bits(dvec(expected)),
            "{context} at vector {index}"
        );
    }
}

fn maximum_position_error(first: &[Body], second: &[Body]) -> f64 {
    positions(first)
        .iter()
        .flatten()
        .zip(positions(second).iter().flatten())
        .map(|(first, second)| (*first - *second).length())
        .fold(0.0_f64, f64::max)
}

fn trajectory_errors(first: &[Body], second: &[Body]) -> (f64, f64) {
    let mut squared_error_sum = 0.0;
    let mut point_count = 0;
    let mut maximum_error = 0.0_f64;
    for (first, second) in positions(first).iter().zip(positions(second)) {
        for (first_point, second_point) in first.iter().zip(second) {
            let error = (*first_point - second_point).length();
            squared_error_sum += error * error;
            point_count += 1;
            maximum_error = maximum_error.max(error);
        }
    }
    ((squared_error_sum / point_count as f64).sqrt(), maximum_error)
}

fn component_error(actual: DMat3, expected: DMat3) -> f64 {
    actual
        .to_cols_array()
        .into_iter()
        .zip(expected.to_cols_array())
        .map(|(actual, expected)| (actual - expected).abs())
        .fold(0.0_f64, f64::max)
}

fn orthonormality_error(rotation: DMat3) -> f64 {
    (rotation.transpose() * rotation - DMat3::IDENTITY)
        .to_cols_array()
        .into_iter()
        .map(f64::abs)
        .fold(0.0_f64, f64::max)
}

fn default_step() -> Double {
    Double(1.0 / DEFAULT_FIXED_HZ)
}

fn predict_for_test(simulation: &mut Simulation, dt: Double) {
    for (body, previous) in simulation
        .bodies
        .iter_mut()
        .zip(&mut simulation.previous_positions)
    {
        body.predict(previous, dt);
    }
}

fn simulation_is_finite(simulation: &Simulation) -> bool {
    simulation.bodies.len() == simulation.previous_positions.len()
        && simulation
            .bodies
            .iter()
            .zip(&simulation.previous_positions)
            .all(|(body, previous)| {
                array(body.positions)
                    .iter()
                    .chain(&array(*previous))
                    .chain(&array(body.predicted_positions))
                    .all(|value| value.is_finite())
            })
}

fn maximum_joint_gap(simulation: &Simulation) -> f64 {
    simulation
        .joints
        .iter()
        .map(|joint| {
            (dvec(attachment_position(&simulation.bodies, joint.a))
                - dvec(attachment_position(&simulation.bodies, joint.b)))
            .length()
        })
        .fold(0.0, f64::max)
}

fn scratch_for(bodies: &[Body], joints: &[BallJoint<Double>], hubs: usize) -> SolverScratch<Double> {
    SolverScratch::new(bodies.len(), joints.len(), hubs)
}

use bevy::tasks::{ComputeTaskPool, TaskPoolBuilder};
use mabd::balls::{
    broad_contact_proxy, detailed_contact_proxy, project_ball_contact_passes,
    project_ball_contacts, project_ball_pairs, project_balls_against_chunked_net,
    rebuild_ball_contact_chunk_bounds, rebuild_ball_contact_chunk_bounds_sequential,
};
use mabd::cylinder::{
    project_cylinder_contact_passes_pass_major, project_cylinder_contacts,
    project_cylinder_contacts_body_major, CylinderCollider,
};
use mabd::reference::{
    project_ball_contacts_uncached, project_cylinder_contacts_reference, reject_from_axis,
};
use mabd::tasks::{ball_bound_tasks, cylinder_tasks};

const ZERO: Vec3<Double> = Vec3 {
    x: Double(0.0),
    y: Double(0.0),
    z: Double(0.0),
};

fn pool() -> &'static ComputeTaskPool {
    ComputeTaskPool::get_or_init(|| TaskPoolBuilder::new().num_threads(4).build())
}

fn chunk_count(bodies: usize) -> usize {
    bodies.div_ceil(CONTACT_PROXY_CHUNK_SIZE)
}

fn center_attachment(body: usize) -> Attachment<Double> {
    Attachment {
        body,
        weights: hub_center(),
    }
}

fn point(bodies: &[Body], attachment: Attachment<Double>) -> DVec3 {
    dvec(attachment_position(bodies, attachment))
}

fn test_body(position: DVec3, fixed: bool) -> Body {
    let mut body = Body::new(
        BodyKind::Hub { fixed },
        hub_rest_points(),
        vec3(position),
        fixed,
    );
    body.inverse_diagonal = Double(if fixed { 0.0 } else { 1.0 });
    body
}

fn test_ball(position: DVec3) -> Body {
    let mut ball = Body::new(BodyKind::Ball, ball_rest_points(), vec3(position), false);
    ball.inverse_diagonal = Double(1.0);
    ball
}

fn previous_of(bodies: &[Body]) -> Vec<Points> {
    bodies.iter().map(|body| body.positions).collect()
}

fn proxy_of(body: &Body) -> (DVec3, DVec3) {
    let (start, end) = detailed_contact_proxy(body);
    (dvec(start), dvec(end))
}

fn radial_part(vector: DVec3, axis: DVec3) -> DVec3 {
    dvec(reject_from_axis(vec3(vector), vec3(axis)))
}

fn sphere_rod_separation(bodies: &[Body], sphere: usize, rod: usize) -> f64 {
    let sphere_position = dvec(bodies[sphere].centroid());
    let (start, end) = rod_collider_attachments(rod);
    let start_position = point(bodies, start);
    let end_position = point(bodies, end);
    let direction = end_position - start_position;
    let denominator = direction.length_squared();
    let t = if denominator > CONTACT_EPSILON {
        ((sphere_position - start_position).dot(direction) / denominator).clamp(0.0, 1.0)
    } else {
        0.5
    };
    let closest = point(bodies, interpolate_attachment(start, end, Double(t)));
    (sphere_position - closest).length() - BALL_RADIUS as f64 - ROD_THICKNESS as f64 * 0.5
}

fn minimum_ball_contact_separation(simulation: &Simulation) -> f64 {
    let mut minimum = f64::INFINITY;

    for first in 0..simulation.ball_indices.len() {
        let first_index = simulation.ball_indices[first];
        let first_center = dvec(simulation.bodies[first_index].centroid());
        for second in (first + 1)..simulation.ball_indices.len() {
            let second_index = simulation.ball_indices[second];
            minimum = minimum.min(
                (first_center - dvec(simulation.bodies[second_index].centroid())).length()
                    - BALL_RADIUS as f64 * 2.0,
            );
        }

        for net_index in 0..simulation.ball_indices[0] {
            minimum = minimum.min(match simulation.bodies[net_index].kind {
                BodyKind::Hub { .. } => {
                    (first_center - dvec(simulation.bodies[net_index].centroid())).length()
                        - BALL_RADIUS as f64
                        - HUB_RADIUS as f64
                }
                BodyKind::Rod => sphere_rod_separation(&simulation.bodies, first_index, net_index),
                BodyKind::Ball => f64::INFINITY,
            });
        }
    }

    minimum
}

fn cylinder_proxy_separation(
    bodies: &[Body],
    body_index: usize,
    body: &Body,
    cylinder: CylinderCollider<Double>,
) -> Option<f64> {
    let origin = dvec(cylinder.origin);
    let axis = dvec(cylinder.axis);
    let (attachment, radius) = match body.kind {
        BodyKind::Hub { .. } => (center_attachment(body_index), HUB_RADIUS as f64),
        BodyKind::Rod => {
            let (start, end) = rod_collider_attachments(body_index);
            let start_position = point(bodies, start);
            let end_position = point(bodies, end);
            let start_radial = radial_part(start_position - origin, axis);
            let direction_radial = radial_part(end_position - start_position, axis);
            let denominator = direction_radial.length_squared();
            let t = if denominator > CONTACT_EPSILON {
                (-start_radial.dot(direction_radial) / denominator).clamp(0.0, 1.0)
            } else {
                0.5
            };
            (
                interpolate_attachment(start, end, Double(t)),
                ROD_THICKNESS as f64 * 0.5,
            )
        }
        BodyKind::Ball => return None,
    };
    let radial = radial_part(point(bodies, attachment) - origin, axis).length();
    Some(radial - cylinder.radius.0 - radius)
}

fn detailed_chunk_bounds(
    bodies: &[Body],
    net_body_count: usize,
    chunk_min: &mut [Vec3<Double>],
    chunk_max: &mut [Vec3<Double>],
) {
    for (chunk, net_bodies) in bodies[..net_body_count]
        .chunks(CONTACT_PROXY_CHUNK_SIZE)
        .enumerate()
    {
        let mut minimum = DVec3::splat(f64::INFINITY);
        let mut maximum = DVec3::splat(f64::NEG_INFINITY);
        for body in net_bodies {
            let (start, end) = proxy_of(body);
            minimum = minimum.min(start).min(end);
            maximum = maximum.max(start).max(end);
        }
        chunk_min[chunk] = vec3(minimum);
        chunk_max[chunk] = vec3(maximum);
    }
}

fn broad_chunk_bounds(
    bodies: &[Body],
    net_body_count: usize,
    chunk_min: &mut [Vec3<Double>],
    chunk_max: &mut [Vec3<Double>],
) {
    for (chunk, net_bodies) in bodies[..net_body_count]
        .chunks(CONTACT_PROXY_CHUNK_SIZE)
        .enumerate()
    {
        let mut minimum = DVec3::splat(f64::INFINITY);
        let mut maximum = DVec3::splat(f64::NEG_INFINITY);
        for body in net_bodies {
            let (start, end) = broad_contact_proxy(body);
            minimum = minimum.min(dvec(start)).min(dvec(end));
            maximum = maximum.max(dvec(start)).max(dvec(end));
        }
        chunk_min[chunk] = vec3(minimum);
        chunk_max[chunk] = vec3(maximum);
    }
}

#[test]
fn cached_ball_contacts_match_uncached_ordered_projection() {
    for warmup_steps in [0, 20, 100] {
        let mut simulation = Simulation::new(DemoScene::FallingBalls);
        for _ in 0..warmup_steps {
            simulation.step(default_step());
        }

        let ball_indices = simulation.ball_indices.clone();
        let previous = simulation.previous_positions;
        let mut cached = simulation.bodies.clone();
        let mut uncached = simulation.bodies;
        let mut chunk_min = vec![ZERO; chunk_count(cached.len())];
        let mut chunk_max = vec![ZERO; chunk_count(cached.len())];
        project_ball_contacts(
            &mut cached,
            &previous,
            &ball_indices,
            &mut chunk_min,
            &mut chunk_max,
        );
        project_ball_contacts_uncached(&mut uncached, &previous, &ball_indices);

        let maximum_error = maximum_position_error(&cached, &uncached);
        assert!(
            maximum_error < 1.0e-14,
            "cached contact projection error after {warmup_steps} steps: {maximum_error}"
        );
    }
}

#[test]
fn specialized_contact_proxies_match_attachment_reference() {
    for (grid_size, warmup_steps) in [(10, 0), (10, 20), (10, 100), (25, 20)] {
        let mut simulation = Simulation::with_grid_size(DemoScene::FallingBalls, grid_size);
        for _ in 0..warmup_steps {
            simulation.step(default_step());
        }

        let net_body_count = simulation.ball_indices[0];
        let mut maximum_error = 0.0_f64;
        let mut maximum_broad_bound_violation = 0.0_f64;
        for body_index in 0..net_body_count {
            let (proxy_start, proxy_end) = proxy_of(&simulation.bodies[body_index]);
            let (broad_start, broad_end) = broad_contact_proxy(&simulation.bodies[body_index]);
            let broad_minimum = dvec(broad_start).min(dvec(broad_end));
            let broad_maximum = dvec(broad_start).max(dvec(broad_end));
            for proxy in [proxy_start, proxy_end] {
                for axis in 0..3 {
                    maximum_broad_bound_violation = maximum_broad_bound_violation
                        .max(broad_minimum[axis] - proxy[axis])
                        .max(proxy[axis] - broad_maximum[axis]);
                }
            }
            let (expected_start, expected_end) = match simulation.bodies[body_index].kind {
                BodyKind::Hub { .. } => {
                    let center = point(&simulation.bodies, center_attachment(body_index));
                    (center, center)
                }
                BodyKind::Rod => {
                    let (start, end) = rod_collider_attachments(body_index);
                    (
                        point(&simulation.bodies, start),
                        point(&simulation.bodies, end),
                    )
                }
                BodyKind::Ball => unreachable!("balls follow all net bodies"),
            };
            maximum_error = maximum_error
                .max((proxy_start - expected_start).length())
                .max((proxy_end - expected_end).length());
        }
        assert!(
            maximum_error < 1.0e-13,
            "{grid_size}x{grid_size} proxy error after {warmup_steps} steps: {maximum_error}"
        );
        assert!(
            maximum_broad_bound_violation < 1.0e-13,
            "{grid_size}x{grid_size} broad bound violation after {warmup_steps} steps: \
             {maximum_broad_bound_violation}"
        );
    }
}

#[test]
fn on_demand_ball_contacts_match_detailed_bounds_exactly() {
    for (grid_size, warmup_steps) in [(10, 0), (10, 20), (10, 100), (25, 20), (25, 100)] {
        let mut simulation = Simulation::with_grid_size(DemoScene::FallingBalls, grid_size);
        for _ in 0..warmup_steps {
            simulation.step(default_step());
        }

        let ball_indices = simulation.ball_indices.clone();
        let previous = simulation.previous_positions;
        let mut on_demand = simulation.bodies.clone();
        let mut detailed = simulation.bodies;
        let chunks = chunk_count(on_demand.len());
        let mut on_demand_min = vec![ZERO; chunks];
        let mut on_demand_max = vec![ZERO; chunks];
        let mut detailed_min = vec![ZERO; chunks];
        let mut detailed_max = vec![ZERO; chunks];

        project_ball_contact_passes(
            &mut on_demand,
            &previous,
            &ball_indices,
            &mut on_demand_min,
            &mut on_demand_max,
        );
        for pass in 0..CONTACT_PASSES {
            project_ball_pairs(&mut detailed, &previous, &ball_indices);
            if pass == 0 {
                detailed_chunk_bounds(
                    &detailed,
                    ball_indices[0],
                    &mut detailed_min,
                    &mut detailed_max,
                );
            }
            project_balls_against_chunked_net(
                &mut detailed,
                &previous,
                &ball_indices,
                &mut detailed_min,
                &mut detailed_max,
            );
        }

        assert_eq!(positions(&on_demand), positions(&detailed));
    }
}

#[test]
fn parallel_ball_contact_bounds_match_sequential_exactly() {
    for grid_size in [10, 25, 50, 100] {
        let mut simulation = Simulation::with_grid_size(DemoScene::FallingBalls, grid_size);
        for _ in 0..30 {
            simulation.step(default_step());
        }

        let ball_indices = simulation.ball_indices.clone();
        let net_body_count = ball_indices[0];
        let previous = simulation.previous_positions;
        let chunks = chunk_count(net_body_count);
        let minimum_sentinel = DVec3::splat(12_345.0);
        let maximum_sentinel = DVec3::splat(-54_321.0);
        let mut parallel_min = vec![vec3(minimum_sentinel); chunks + 2];
        let mut parallel_max = vec![vec3(maximum_sentinel); chunks + 2];
        let mut whole_min = parallel_min.clone();
        let mut whole_max = parallel_max.clone();
        let mut sequential_min = parallel_min.clone();
        let mut sequential_max = parallel_max.clone();
        match ball_bound_tasks(net_body_count, Some(pool().thread_num())) {
            Some(chunks_per_task) => {
                let bodies_per_task = chunks_per_task * CONTACT_PROXY_CHUNK_SIZE;
                let net_bodies = &simulation.bodies[..net_body_count];
                pool().scope(|scope| {
                    for ((body_chunk, min_chunk), max_chunk) in net_bodies
                        .chunks(bodies_per_task)
                        .zip(parallel_min[..chunks].chunks_mut(chunks_per_task))
                        .zip(parallel_max[..chunks].chunks_mut(chunks_per_task))
                    {
                        scope.spawn(async move {
                            rebuild_ball_contact_chunk_bounds_sequential(
                                body_chunk, min_chunk, max_chunk,
                            );
                        });
                    }
                });
            }
            None => rebuild_ball_contact_chunk_bounds(
                &simulation.bodies,
                &ball_indices,
                &mut parallel_min,
                &mut parallel_max,
            ),
        }
        rebuild_ball_contact_chunk_bounds(
            &simulation.bodies,
            &ball_indices,
            &mut whole_min,
            &mut whole_max,
        );
        broad_chunk_bounds(
            &simulation.bodies,
            net_body_count,
            &mut sequential_min,
            &mut sequential_max,
        );
        assert_eq!(dvecs(&parallel_min), dvecs(&sequential_min));
        assert_eq!(dvecs(&parallel_max), dvecs(&sequential_max));
        assert_eq!(dvecs(&whole_min), dvecs(&sequential_min));
        assert_eq!(dvecs(&whole_max), dvecs(&sequential_max));
        assert_eq!(dvecs(&parallel_min[chunks..]), [minimum_sentinel; 2]);
        assert_eq!(dvecs(&parallel_max[chunks..]), [maximum_sentinel; 2]);

        let mut parallel_contacts = simulation.bodies.clone();
        let mut sequential_contacts = simulation.bodies;
        project_ball_pairs(&mut parallel_contacts, &previous, &ball_indices);
        project_ball_pairs(&mut sequential_contacts, &previous, &ball_indices);
        project_balls_against_chunked_net(
            &mut parallel_contacts,
            &previous,
            &ball_indices,
            &mut parallel_min,
            &mut parallel_max,
        );
        project_balls_against_chunked_net(
            &mut sequential_contacts,
            &previous,
            &ball_indices,
            &mut sequential_min,
            &mut sequential_max,
        );
        assert_eq!(
            positions(&parallel_contacts),
            positions(&sequential_contacts)
        );
    }
}

#[test]
fn reused_ball_contact_cache_matches_rebuild_each_pass() {
    for warmup_steps in [0, 20, 100] {
        let mut simulation = Simulation::new(DemoScene::FallingBalls);
        for _ in 0..warmup_steps {
            simulation.step(default_step());
        }

        let ball_indices = simulation.ball_indices.clone();
        let previous = simulation.previous_positions;
        let mut reused = simulation.bodies.clone();
        let mut rebuilt = simulation.bodies;
        let chunks = chunk_count(reused.len());
        let mut reused_min = vec![ZERO; chunks];
        let mut reused_max = vec![ZERO; chunks];
        let mut rebuilt_min = vec![ZERO; chunks];
        let mut rebuilt_max = vec![ZERO; chunks];

        project_ball_contact_passes(
            &mut reused,
            &previous,
            &ball_indices,
            &mut reused_min,
            &mut reused_max,
        );
        for _ in 0..CONTACT_PASSES {
            project_ball_contacts(
                &mut rebuilt,
                &previous,
                &ball_indices,
                &mut rebuilt_min,
                &mut rebuilt_max,
            );
        }

        assert_eq!(positions(&reused), positions(&rebuilt));
    }
}

#[test]
fn ball_contact_chunks_expand_after_moving_a_net_body() {
    let hub = test_body(DVec3::ZERO, false);
    let left_ball = test_ball(DVec3::new(-0.270, 0.0, 0.0));
    let right_ball = test_ball(DVec3::new(0.416, 0.0, 0.0));
    let mut chunked = vec![hub, left_ball, right_ball];
    let mut uncached = chunked.clone();
    let previous = previous_of(&chunked);
    let initial_right_ball = dvec(chunked[2].centroid());
    let mut chunk_min = vec![ZERO; 1];
    let mut chunk_max = vec![ZERO; 1];

    project_ball_contacts(
        &mut chunked,
        &previous,
        &[1, 2],
        &mut chunk_min,
        &mut chunk_max,
    );
    project_ball_contacts_uncached(&mut uncached, &previous, &[1, 2]);

    let maximum_error = maximum_position_error(&chunked, &uncached);
    assert!(
        maximum_error < 1.0e-14,
        "chunk update error: {maximum_error}"
    );
    assert!(dvec(chunked[2].centroid()).x > initial_right_ball.x);
    let (updated_start, updated_end) = proxy_of(&chunked[0]);
    let (minimum, maximum) = (dvec(chunk_min[0]), dvec(chunk_max[0]));
    for proxy in [updated_start, updated_end] {
        assert!((0..3).all(|axis| proxy[axis] >= minimum[axis] && proxy[axis] <= maximum[axis]));
    }
}

#[test]
fn specialized_cylinder_contacts_match_reference_projection() {
    let mut simulation = Simulation::new(DemoScene::CylinderDrape);
    for _ in 0..20 {
        simulation.step(default_step());
    }

    let cylinder = simulation.cylinder.unwrap();
    let previous = simulation.previous_positions;
    let mut specialized = simulation.bodies.clone();
    let mut reference = simulation.bodies;
    project_cylinder_contacts(&mut specialized, &previous, cylinder);
    project_cylinder_contacts_reference(&mut reference, &previous, cylinder);

    let maximum_error = maximum_position_error(&specialized, &reference);
    assert!(
        maximum_error < 1.0e-12,
        "specialized cylinder projection error: {maximum_error}"
    );
}

#[test]
fn body_major_cylinder_passes_match_pass_major_order_exactly() {
    for grid_size in GRID_SIZE_OPTIONS {
        let mut simulation = Simulation::with_grid_size(DemoScene::CylinderDrape, grid_size);
        for _ in 0..20 {
            simulation.step(default_step());
        }
        let cylinder = simulation.cylinder.unwrap();
        let previous = simulation.previous_positions;
        let mut body_major = simulation.bodies.clone();
        let mut pass_major = simulation.bodies;

        match cylinder_tasks(body_major.len(), Some(pool().thread_num())) {
            Some(bodies_per_task) => pool().scope(|scope| {
                for (body_chunk, previous_chunk) in body_major
                    .chunks_mut(bodies_per_task)
                    .zip(previous.chunks(bodies_per_task))
                {
                    scope.spawn(async move {
                        project_cylinder_contacts_body_major(body_chunk, previous_chunk, cylinder);
                    });
                }
            }),
            None => {
                project_cylinder_contacts_body_major(&mut body_major, &previous, cylinder);
                Vec::new()
            }
        };
        project_cylinder_contact_passes_pass_major(&mut pass_major, &previous, cylinder);

        assert_eq!(positions(&body_major), positions(&pass_major));
    }
}

#[test]
fn body_major_cylinder_passes_preserve_full_trajectory_exactly() {
    for grid_size in GRID_SIZE_OPTIONS {
        let mut body_major = Simulation::with_grid_size(DemoScene::CylinderDrape, grid_size);
        let mut pass_major = Simulation::with_grid_size(DemoScene::CylinderDrape, grid_size);

        for step in 0..30 {
            body_major.step(default_step());
            pass_major.step_with_joint_projection::<POLAR_NEWTON_ITERATIONS, true, true, false>(
                default_step(),
            );

            assert!(
                history(&body_major.previous_positions) == history(&pass_major.previous_positions),
                "previous-position mismatch for {grid_size}x{grid_size} at step {step}"
            );
            assert!(
                positions(&body_major.bodies) == positions(&pass_major.bodies),
                "position mismatch for {grid_size}x{grid_size} at step {step}"
            );
            for (body_major, pass_major) in body_major.bodies.iter().zip(&pass_major.bodies) {
                assert_eq!(
                    array(body_major.predicted_positions),
                    array(pass_major.predicted_positions),
                    "prediction mismatch for {grid_size}x{grid_size} at step {step}"
                );
            }
        }
    }
}

#[test]
fn pair_contact_separates_two_dynamic_attachments() {
    let mut bodies = vec![
        test_body(DVec3::ZERO, false),
        test_body(DVec3::new(0.5, 0.0, 0.0), false),
    ];
    let first = center_attachment(0);
    let second = center_attachment(1);
    let previous = previous_of(&bodies);

    project_attachment_pair(
        &mut bodies,
        &previous,
        first,
        second,
        Double(1.0),
        vec3(DVec3::X),
    );

    let delta = point(&bodies, first) - point(&bodies, second);
    assert!((delta.length() - 1.0).abs() < 1.0e-10);
    assert!((dvec(bodies[0].centroid()).x + 0.25).abs() < 1.0e-10);
    assert!((dvec(bodies[1].centroid()).x - 0.75).abs() < 1.0e-10);
}

#[test]
fn static_cylinder_contact_projects_outward() {
    let cylinder = CylinderCollider {
        origin: ZERO,
        axis: vec3(DVec3::X),
        radius: Double(0.7),
        length: Double(5.8),
    };
    let mut bodies = vec![test_body(DVec3::new(0.0, 0.2, 0.0), false)];
    let previous = previous_of(&bodies);

    project_cylinder_contacts(&mut bodies, &previous, cylinder);

    let radial = radial_part(dvec(bodies[0].centroid()), dvec(cylinder.axis)).length();
    assert!((radial - (cylinder.radius.0 + HUB_RADIUS as f64)).abs() < 1.0e-10);
}

#[test]
fn sphere_capsule_contact_handles_midpoint_and_endcap() {
    for sphere_position in [DVec3::new(0.0, 0.2, 0.0), DVec3::new(0.35, 0.1, 0.0)] {
        let mut rod = Body::new(BodyKind::Rod, rod_rest_points(), ZERO, false);
        rod.inverse_diagonal = Double(1.0);
        let mut bodies = vec![rod, test_ball(sphere_position)];
        let previous = previous_of(&bodies);

        let mut chunk_min = vec![ZERO; 1];
        let mut chunk_max = vec![ZERO; 1];
        project_ball_contacts(
            &mut bodies,
            &previous,
            &[1],
            &mut chunk_min,
            &mut chunk_max,
        );

        let separation = sphere_rod_separation(&bodies, 1, 0);
        assert!(separation.abs() < 1.0e-10, "separation: {separation}");
    }
}

#[test]
fn coincident_spheres_use_a_finite_fallback_normal() {
    let mut bodies = vec![test_ball(DVec3::ZERO), test_ball(DVec3::ZERO)];
    let previous = previous_of(&bodies);

    let mut chunk_min = vec![ZERO; 1];
    let mut chunk_max = vec![ZERO; 1];
    project_ball_contacts(
        &mut bodies,
        &previous,
        &[0, 1],
        &mut chunk_min,
        &mut chunk_max,
    );

    let first = dvec(bodies[0].centroid());
    let second = dvec(bodies[1].centroid());
    assert!(first.is_finite() && second.is_finite());
    assert!(((first - second).length() - BALL_RADIUS as f64 * 2.0).abs() < 1.0e-10);
}

#[test]
fn cylinder_scene_settles_without_penetration() {
    let mut simulation = Simulation::new(DemoScene::CylinderDrape);
    let cylinder = simulation.cylinder.unwrap();

    for _ in 0..120 {
        simulation.step(default_step());
    }

    let minimum_separation = simulation
        .bodies
        .iter()
        .enumerate()
        .filter_map(|(index, body)| {
            cylinder_proxy_separation(&simulation.bodies, index, body, cylinder)
        })
        .fold(f64::INFINITY, f64::min);
    let maximum_gap = maximum_joint_gap(&simulation);

    assert!(simulation_is_finite(&simulation));
    assert!(
        minimum_separation >= -1.0e-6,
        "minimum separation: {minimum_separation}"
    );
    assert!(maximum_gap < 5.0e-3, "maximum joint gap: {maximum_gap}");
}

#[test]
fn falling_balls_are_supported_by_the_corner_pinned_net() {
    let mut simulation = Simulation::new(DemoScene::FallingBalls);
    let fixed_positions: Vec<[DVec3; 4]> = simulation
        .bodies
        .iter()
        .filter(|body| body.fixed)
        .map(|body| array(body.positions))
        .collect();

    for _ in 0..150 {
        simulation.step(default_step());
    }

    let lowest_net_height = simulation.bodies[..280]
        .iter()
        .map(|body| dvec(body.centroid()).y)
        .fold(f64::INFINITY, f64::min);
    let lowest_ball_height = simulation
        .ball_indices
        .iter()
        .map(|&index| dvec(simulation.bodies[index].centroid()).y)
        .fold(f64::INFINITY, f64::min);
    let final_fixed_positions: Vec<[DVec3; 4]> = simulation
        .bodies
        .iter()
        .filter(|body| body.fixed)
        .map(|body| array(body.positions))
        .collect();
    assert!(simulation_is_finite(&simulation));
    assert_eq!(fixed_positions, final_fixed_positions);
    assert!(
        lowest_ball_height > lowest_net_height - BALL_RADIUS as f64,
        "balls passed through the net: ball={lowest_ball_height}, net={lowest_net_height}"
    );
    let minimum_contact_separation = minimum_ball_contact_separation(&simulation);
    assert!(
        minimum_contact_separation >= -2.0e-2,
        "minimum ball contact separation: {minimum_contact_separation}"
    );
    assert!(maximum_joint_gap(&simulation) < 5.0e-3);
}
