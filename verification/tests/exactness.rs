use mabd::attachment::{attachment_position, project_attachment_pair, project_static_attachment};
use mabd::balls::{
    ball_hub_distance, ball_pair_distance, center_of, project_ball_contact_passes,
    project_ball_contacts, project_balls_against_chunked_net,
    rebuild_ball_contact_chunk_bounds,
};
use mabd::body::{
    ball_rest_points, hub_center, hub_rest_points, rod_center_and_deformation_gradient,
    rod_deformation_gradient, rod_rest_points, AffineBody, BodyKind, ControlPoints,
};
use mabd::camera::{camera_scale, camera_target_depth, default_camera, scaled_camera};
use mabd::constants::{affine_stiffness, hub_radius, CONTACT_PASSES};
use mabd::cylinder::{project_attachment_against_cylinder, project_cylinder_contacts, CylinderCollider};
use mabd::dual::{
    apply_dual_matrix, apply_joint_correction, compute_joint_residuals,
    compute_joint_residuals_generic, finalize_joint_residuals,
    prepare_direct_joint_solver_reference, solve_dual_direct, DualScratch,
};
use mabd::joints::Attachment;
use mabd::polar::{
    closest_rotation, closest_rotation_with_divisive_final, closest_rotation_with_iterations,
};
use mabd::reference::{project_ball_contacts_uncached, project_cylinder_contacts_reference};
use mabd::scalar::Scalar;
use mabd::scene::DemoScene;
use mabd::simulation::NetSimulation;
use mabd::vector::{Mat3, Vec3};
use mabd::world::{create_world_plan, WorldPlan};

/// Fractions in lowest terms. What is divided by zero is zero, and a root that is no fraction
/// is cut after three digits.
#[derive(Clone, Copy, Debug, PartialEq, Eq)]
struct Ratio {
    numerator: i128,
    denominator: i128,
}

fn common_divisor(first: i128, second: i128) -> i128 {
    if second == 0 {
        first.abs()
    } else {
        common_divisor(second, first % second)
    }
}

fn whole_root(value: i128) -> i128 {
    let mut low = 0_i128;
    let mut high = 1_i128 << 63;
    while high - low > 1 {
        let middle = (low + high) / 2;
        if middle * middle <= value {
            low = middle;
        } else {
            high = middle;
        }
    }
    low
}

fn product(first: i128, second: i128) -> i128 {
    match first.checked_mul(second) {
        Some(product) => product,
        None => panic!("{first} times {second} is too large"),
    }
}

impl Ratio {
    fn lowest(numerator: i128, denominator: i128) -> Self {
        let divisor = common_divisor(numerator, denominator);
        let sign = if denominator < 0 { -1 } else { 1 };
        Ratio {
            numerator: sign * numerator / divisor,
            denominator: sign * denominator / divisor,
        }
    }
}

impl Scalar for Ratio {
    fn plus(self, other: Self) -> Self {
        let divisor = common_divisor(self.denominator, other.denominator);
        let scale = other.denominator / divisor;
        Ratio::lowest(
            product(self.numerator, scale) + product(other.numerator, self.denominator / divisor),
            product(self.denominator, scale),
        )
    }
    fn add(self, other: Self) -> Self {
        self.plus(other)
    }
    fn minus(self, other: Self) -> Self {
        self.plus(other.negated())
    }
    fn sub(self, other: Self) -> Self {
        self.minus(other)
    }
    fn times(self, other: Self) -> Self {
        let first = Ratio::lowest(self.numerator, other.denominator);
        let second = Ratio::lowest(other.numerator, self.denominator);
        Ratio {
            numerator: product(first.numerator, second.numerator),
            denominator: product(first.denominator, second.denominator),
        }
    }
    fn mul(self, other: Self) -> Self {
        self.times(other)
    }
    fn over(self, other: Self) -> Self {
        if other.numerator == 0 {
            return ratio(0, 1);
        }
        self.times(Ratio::lowest(other.denominator, other.numerator))
    }
    fn div(self, other: Self) -> Self {
        self.over(other)
    }
    fn negated(self) -> Self {
        Ratio { numerator: -self.numerator, ..self }
    }
    fn neg(self) -> Self {
        self.negated()
    }
    fn magnitude(self) -> Self {
        Ratio { numerator: self.numerator.abs(), ..self }
    }
    fn abs(self) -> Self {
        self.magnitude()
    }
    fn root(self) -> Self {
        let numerator = whole_root(self.numerator);
        let denominator = whole_root(self.denominator);
        if numerator * numerator == self.numerator && denominator * denominator == self.denominator {
            return Ratio { numerator, denominator };
        }
        let digits = product(product(self.numerator, self.denominator), 1_000_000);
        Ratio::lowest(whole_root(digits), product(self.denominator, 1_000))
    }
    fn sqrt(self) -> Self {
        self.root()
    }
    fn power(self, exponent: Self) -> Self {
        assert_eq!(exponent.denominator, 1, "only whole exponents");
        let mut power = ratio(1, 1);
        for _ in 0..exponent.numerator {
            power = power.times(self);
        }
        power
    }
    fn powf(self, exponent: Self) -> Self {
        self.power(exponent)
    }
    fn below(self, other: Self) -> bool {
        self.minus(other).numerator < 0
    }
    fn lt(self, other: Self) -> bool {
        self.below(other)
    }
    fn at_most(self, other: Self) -> bool {
        self.minus(other).numerator <= 0
    }
    fn le(self, other: Self) -> bool {
        self.at_most(other)
    }
    fn finite(self) -> bool {
        true
    }
    fn is_finite(self) -> bool {
        true
    }
    fn bits(self) -> u64 {
        (self.numerator as u64).wrapping_mul(1 << 32) ^ self.denominator as u64
    }
    fn to_bits(self) -> u64 {
        self.bits()
    }
    fn fraction(numerator: i64, denominator: i64) -> Self {
        Ratio::lowest(i128::from(numerator), i128::from(denominator))
    }
    fn from_fraction(numerator: i64, denominator: i64) -> Self {
        Self::fraction(numerator, denominator)
    }
    fn single_fraction(numerator: i64, denominator: i64) -> Self {
        Self::fraction(numerator, denominator)
    }
    fn from_single_fraction(numerator: i64, denominator: i64) -> Self {
        Self::fraction(numerator, denominator)
    }
    fn count(value: usize) -> Self {
        Self::fraction(value as i64, 1)
    }
    fn from_count(value: usize) -> Self {
        Self::count(value)
    }
    fn unbounded() -> Self {
        ratio(1_000_000_000_000, 1)
    }
    fn infinity() -> Self {
        Self::unbounded()
    }
    fn turned(direction: Vec3<Self>, point: Vec3<Self>) -> Vec3<Self> {
        Self::turn_from_x(direction, point)
    }
    fn turn_from_x(direction: Vec3<Self>, point: Vec3<Self>) -> Vec3<Self> {
        let axis = vector(ratio(0, 1), direction.z.negated(), direction.y);
        let first = axis.cross(point);
        let second = axis.cross(first);
        point.add(first).add(second.div(ratio(1, 1).add(direction.x)))
    }
}

fn ratio(numerator: i64, denominator: i64) -> Ratio {
    Ratio::from_fraction(numerator, denominator)
}

fn vector(x: Ratio, y: Ratio, z: Ratio) -> Vec3<Ratio> {
    Vec3 { x, y, z }
}

fn components(value: Vec3<Ratio>) -> [Ratio; 3] {
    [value.x, value.y, value.z]
}

fn columns(value: Mat3<Ratio>) -> [[Ratio; 3]; 3] {
    [
        components(value.x_axis),
        components(value.y_axis),
        components(value.z_axis),
    ]
}

fn corners(points: ControlPoints<Ratio>) -> [[Ratio; 3]; 4] {
    [
        components(points.p0),
        components(points.p1),
        components(points.p2),
        components(points.p3),
    ]
}

fn places(bodies: &[AffineBody<Ratio>]) -> Vec<[[Ratio; 3]; 4]> {
    bodies.iter().map(|body| corners(body.positions)).collect()
}

fn distance_squared(bodies: &[AffineBody<Ratio>], a: Attachment<Ratio>, b: Attachment<Ratio>) -> Ratio {
    attachment_position(bodies, a).sub(attachment_position(bodies, b)).length_squared()
}

fn movable(kind: BodyKind, offsets: ControlPoints<Ratio>, center: Vec3<Ratio>) -> AffineBody<Ratio> {
    let mut body = AffineBody::new(kind, offsets, center, false);
    body.update_time_step_coefficients(ratio(1, 30));
    body
}

/// A rotation about z and then about x, both along a right triangle of sides 3, 4 and 5.
fn right_rotation() -> Mat3<Ratio> {
    Mat3 {
        x_axis: vector(ratio(4, 5), ratio(12, 25), ratio(9, 25)),
        y_axis: vector(ratio(-3, 5), ratio(16, 25), ratio(12, 25)),
        z_axis: vector(ratio(0, 1), ratio(-3, 5), ratio(4, 5)),
    }
}

fn stretched(x: Ratio, y: Ratio, z: Ratio) -> Mat3<Ratio> {
    let rotation = right_rotation();
    Mat3 {
        x_axis: rotation.x_axis.scale(x),
        y_axis: rotation.y_axis.scale(y),
        z_axis: rotation.z_axis.scale(z),
    }
}

#[test]
fn a_rotation_is_its_own_closest_rotation() {
    let rotation = right_rotation();
    assert_eq!(rotation.determinant(), ratio(1, 1));
    assert_eq!(columns(closest_rotation(rotation)), columns(rotation));
    assert_eq!(
        columns(closest_rotation_with_iterations::<Ratio, 5>(rotation)),
        columns(rotation)
    );
    let unit = Mat3::<Ratio>::identity();
    assert_eq!(columns(closest_rotation(unit)), columns(unit));
}

#[test]
fn a_stretched_rotation_leads_back_to_the_rotation() {
    let matrix = stretched(ratio(2, 1), ratio(3, 4), ratio(7, 5));
    assert_eq!(columns(closest_rotation(matrix)), columns(right_rotation()));
}

#[test]
fn the_last_round_needs_no_division() {
    let matrix = stretched(ratio(2, 1), ratio(3, 4), ratio(7, 5));
    assert_eq!(
        columns(closest_rotation_with_iterations::<Ratio, 1>(matrix)),
        columns(closest_rotation_with_divisive_final::<Ratio, 1>(matrix))
    );
    assert_eq!(
        columns(closest_rotation_with_iterations::<Ratio, 2>(matrix)),
        columns(closest_rotation_with_divisive_final::<Ratio, 2>(matrix))
    );
    let flat = stretched(ratio(2, 1), ratio(3, 4), ratio(0, 1));
    assert_eq!(
        columns(closest_rotation_with_iterations::<Ratio, 2>(flat)),
        columns(closest_rotation_with_divisive_final::<Ratio, 2>(flat))
    );
}

#[test]
fn a_mirrored_matrix_leads_to_a_rotation() {
    let matrix = stretched(ratio(1, 1), ratio(1, 1), ratio(-2, 1));
    let rotation = closest_rotation(matrix);
    assert_eq!(rotation.determinant(), ratio(1, 1));
    assert_eq!(
        columns(rotation),
        columns(stretched(ratio(1, 1), ratio(-1, 1), ratio(-1, 1)))
    );
}

#[test]
fn no_direction_leads_to_the_unit_matrix() {
    let unit = columns(Mat3::<Ratio>::identity());
    let nothing = stretched(ratio(0, 1), ratio(0, 1), ratio(0, 1));
    assert_eq!(columns(closest_rotation(nothing)), unit);
    let mut parallel = stretched(ratio(1, 1), ratio(1, 1), ratio(1, 1));
    parallel.y_axis = parallel.x_axis.scale(ratio(3, 1));
    assert_eq!(columns(closest_rotation(parallel)), unit);
}

#[test]
fn the_joint_solve_closes_every_joint() {
    for scene in [DemoScene::JointGrid, DemoScene::FallingBalls] {
        for grid_size in [2, 3] {
            let mut simulation: NetSimulation<Ratio> =
                NetSimulation::with_grid_size(scene, grid_size);
            simulation.begin_step(ratio(1, 30));
            simulation.project_shapes::<2, true, true>();
            let open = simulation.joints.iter().any(|joint| {
                attachment_position(&simulation.bodies, joint.a).y
                    != attachment_position(&simulation.bodies, joint.b).y
            });
            assert!(open, "falling rods leave the pinned hubs");
            simulation.project_joints();
            for joint in &simulation.joints {
                assert_eq!(
                    components(attachment_position(&simulation.bodies, joint.a)),
                    components(attachment_position(&simulation.bodies, joint.b))
                );
            }
            for (body, previous) in simulation.bodies.iter().zip(&simulation.previous_positions) {
                if body.fixed {
                    assert_eq!(corners(body.positions), corners(*previous));
                }
            }
        }
    }
}

#[test]
fn touching_balls_part_to_the_sum_of_their_radii() {
    let origin = vector(ratio(0, 1), ratio(0, 1), ratio(0, 1));
    let beside = vector(ratio(3, 25), ratio(4, 25), ratio(0, 1));
    let mut bodies = vec![
        movable(BodyKind::Ball, ball_rest_points(), origin),
        movable(BodyKind::Ball, ball_rest_points(), beside),
    ];
    let previous: Vec<ControlPoints<Ratio>> = bodies.iter().map(|body| body.positions).collect();
    let (a, b) = (center_of(0), center_of(1));
    let minimum: Ratio = ball_pair_distance();
    assert_eq!(distance_squared(&bodies, a, b), ratio(1, 25));
    project_attachment_pair(&mut bodies, &previous, a, b, minimum, Vec3::unit_x());
    assert_eq!(distance_squared(&bodies, a, b), minimum.mul(minimum));
    let middle = attachment_position(&bodies, a).add(attachment_position(&bodies, b));
    assert_eq!(components(middle), components(beside));

    let apart = places(&bodies);
    project_attachment_pair(&mut bodies, &previous, a, b, minimum, Vec3::unit_x());
    assert_eq!(places(&bodies), apart);
}

#[test]
fn a_hub_inside_the_cylinder_is_pushed_to_its_surface() {
    let center = vector(ratio(2, 1), ratio(3, 10), ratio(4, 10));
    let mut bodies = vec![movable(BodyKind::Hub { fixed: false }, hub_rest_points(), center)];
    let previous = vec![bodies[0].positions];
    let origin = Vec3::zero();
    let radius = ratio(7, 10);
    let hub = Attachment { body: 0, weights: hub_center() };
    let applied = project_attachment_against_cylinder(
        &mut bodies,
        &previous,
        hub,
        hub_radius(),
        origin,
        radius,
    );
    assert!(applied);
    let distance = radius.add(hub_radius());
    let after = attachment_position(&bodies, hub);
    assert_eq!(
        components(after),
        [ratio(2, 1), ratio(3, 5).mul(distance), ratio(4, 5).mul(distance)]
    );
    assert!(!project_attachment_against_cylinder(
        &mut bodies,
        &previous,
        hub,
        hub_radius(),
        origin,
        radius,
    ));
}

#[test]
fn the_cylinder_along_x_is_a_cylinder_along_an_axis() {
    let simulation: NetSimulation<Ratio> =
        NetSimulation::with_grid_size(DemoScene::CylinderDrape, 2);
    let mut along_x = simulation.bodies.clone();
    for body in &mut along_x {
        body.update_time_step_coefficients(ratio(1, 30));
    }
    let mut along_axis = along_x.clone();
    let cylinder = CylinderCollider {
        origin: vector(ratio(0, 1), ratio(5, 2), ratio(0, 1)),
        axis: Vec3::unit_x(),
        radius: ratio(7, 10),
        length: ratio(6, 1),
    };
    let start = places(&along_x);
    project_cylinder_contacts(&mut along_x[2..5], &simulation.previous_positions[2..5], cylinder);
    project_cylinder_contacts_reference(
        &mut along_axis[2..5],
        &simulation.previous_positions[2..5],
        cylinder,
    );
    assert_eq!(places(&along_x), places(&along_axis));
    assert_ne!(places(&along_x), start);
}

fn ball_over_hub() -> NetSimulation<Ratio> {
    let mut simulation: NetSimulation<Ratio> =
        NetSimulation::with_grid_size(DemoScene::FallingBalls, 3);
    let hub = simulation.bodies[4].centroid();
    let ball = simulation.ball_indices[0];
    let above = vector(hub.x, hub.y.add(ratio(2, 5)), hub.z);
    let offset = above.sub(simulation.bodies[ball].centroid());
    let points = simulation.bodies[ball].positions;
    simulation.bodies[ball].positions = ControlPoints {
        p0: points.p0.add(offset),
        p1: points.p1.add(offset),
        p2: points.p2.add(offset),
        p3: points.p3.add(offset),
    };
    for body in &mut simulation.bodies {
        body.update_time_step_coefficients(ratio(1, 30));
    }
    simulation
}

#[test]
fn boxes_change_no_ball_contact() {
    let simulation = ball_over_hub();
    let mut boxed = simulation.bodies.clone();
    let mut plain = simulation.bodies.clone();
    let mut chunk_min = simulation.solver_scratch.contact_chunk_min.clone();
    let mut chunk_max = simulation.solver_scratch.contact_chunk_max.clone();
    project_ball_contacts(
        &mut boxed,
        &simulation.previous_positions,
        &simulation.ball_indices,
        &mut chunk_min,
        &mut chunk_max,
    );
    project_ball_contacts_uncached(
        &mut plain,
        &simulation.previous_positions,
        &simulation.ball_indices,
    );
    assert_eq!(places(&boxed), places(&plain));
    let (ball, hub) = (center_of(simulation.ball_indices[0]), center_of(4));
    let minimum: Ratio = ball_hub_distance();
    assert_eq!(distance_squared(&simulation.bodies, ball, hub), ratio(4, 25));
    assert_eq!(distance_squared(&boxed, ball, hub), minimum.mul(minimum));
}

#[test]
fn boxes_of_the_first_pass_serve_the_second() {
    let simulation = ball_over_hub();
    let mut boxed = simulation.bodies.clone();
    let mut plain = simulation.bodies.clone();
    let mut chunk_min = simulation.solver_scratch.contact_chunk_min.clone();
    let mut chunk_max = simulation.solver_scratch.contact_chunk_max.clone();
    project_ball_contact_passes(
        &mut boxed,
        &simulation.previous_positions,
        &simulation.ball_indices,
        &mut chunk_min,
        &mut chunk_max,
    );
    for _ in 0..CONTACT_PASSES {
        project_ball_contacts_uncached(
            &mut plain,
            &simulation.previous_positions,
            &simulation.ball_indices,
        );
    }
    assert_eq!(places(&boxed), places(&plain));
}

#[test]
fn a_push_moves_a_free_body_as_far_as_it_goes() {
    let center = vector(ratio(1, 2), ratio(3, 1), ratio(-2, 1));
    let mut bodies = vec![
        movable(BodyKind::Hub { fixed: false }, hub_rest_points(), center),
        movable(BodyKind::Hub { fixed: true }, hub_rest_points(), center),
    ];
    bodies[1].fixed = true;
    let held = places(&bodies[1..]);
    let normal = vector(ratio(3, 5), ratio(0, 1), ratio(4, 5));
    assert!(project_static_attachment(&mut bodies, center_of(0), normal, ratio(1, 4)));
    assert!(!project_static_attachment(&mut bodies, center_of(1), normal, ratio(1, 4)));
    assert_eq!(
        components(attachment_position(&bodies, center_of(0))),
        [ratio(13, 20), ratio(3, 1), ratio(-9, 5)]
    );
    assert_eq!(places(&bodies[1..]), held);
}

fn effort(
    bodies: &[AffineBody<Ratio>],
    from: &[AffineBody<Ratio>],
    to: &[AffineBody<Ratio>],
) -> Ratio {
    let mut sum = ratio(0, 1);
    for ((body, from), to) in bodies.iter().zip(from).zip(to) {
        let (from, to) = (from.positions, to.positions);
        let ways = [
            to.p0.sub(from.p0),
            to.p1.sub(from.p1),
            to.p2.sub(from.p2),
            to.p3.sub(from.p3),
        ];
        let resistance = body.inertia.add(affine_stiffness());
        for way in ways {
            sum = sum.add(resistance.mul(way.length_squared()));
        }
    }
    sum
}

#[test]
fn the_joint_solve_finds_the_closest_placement() {
    let mut simulation: NetSimulation<Ratio> =
        NetSimulation::with_grid_size(DemoScene::JointGrid, 2);
    let start = simulation.bodies.clone();
    simulation.begin_step(ratio(1, 30));
    simulation.project_shapes::<2, true, true>();
    let shapes = simulation.bodies.clone();
    simulation.project_joints();
    let placed = &simulation.bodies;
    let moved = effort(&shapes, &shapes, placed);
    let other = effort(&shapes, &shapes, &start);
    assert!(moved.lt(other));
    assert_eq!(other, moved.add(effort(&shapes, placed, &start)));
}

#[test]
fn every_demo_starts_with_closed_joints() {
    for scene in [
        DemoScene::JointGrid,
        DemoScene::CylinderDrape,
        DemoScene::FallingBalls,
    ] {
        let simulation: NetSimulation<Ratio> = NetSimulation::with_grid_size(scene, 4);
        for joint in &simulation.joints {
            assert_eq!(
                components(attachment_position(&simulation.bodies, joint.a)),
                components(attachment_position(&simulation.bodies, joint.b))
            );
        }
        let plan: WorldPlan<Ratio> = create_world_plan(scene, 4);
        for (actor, body) in plan.actors.iter().zip(&simulation.bodies) {
            assert_eq!(components(actor.position), components(body.centroid()));
        }
    }
}

#[test]
fn both_joint_solves_place_the_bodies_alike() {
    let mut simulation: NetSimulation<Ratio> =
        NetSimulation::with_grid_size(DemoScene::FallingBalls, 3);
    simulation.begin_step(ratio(1, 30));
    simulation.project_shapes::<2, true, true>();
    let mut by_multipliers = simulation.bodies.clone();
    simulation.project_joints();

    let mut dual = DualScratch::new(&simulation.joints, 9);
    prepare_direct_joint_solver_reference(&by_multipliers, &simulation.joints, &mut dual);
    let mut residuals = vec![Vec3::zero(); simulation.joints.len()];
    compute_joint_residuals(&by_multipliers, &simulation.joints, &mut residuals, 9);
    let mut hub_forces = vec![Vec3::zero(); 9];
    solve_dual_direct(&residuals, &mut hub_forces, &mut dual, 3);
    let mut image = vec![Vec3::zero(); simulation.joints.len()];
    apply_dual_matrix(&by_multipliers, &simulation.joints, &dual.solution, &mut image);
    for (image, residual) in image.iter().zip(&residuals) {
        assert_eq!(components(*image), components(*residual));
    }
    apply_joint_correction(&mut by_multipliers, &dual.solution, &mut hub_forces, 3);
    assert_eq!(places(&by_multipliers), places(&simulation.bodies));
}

#[test]
fn lists_of_other_lengths_keep_their_ends() {
    let simulation: NetSimulation<Ratio> = NetSimulation::with_grid_size(DemoScene::JointGrid, 2);
    let mark = vector(ratio(1, 1), ratio(2, 1), ratio(3, 1));
    let nothing = [ratio(0, 1); 3];
    let bodies = &simulation.bodies;
    let joints = &simulation.joints;

    let mut long = vec![mark; 11];
    compute_joint_residuals(bodies, joints, &mut long, 4);
    assert!(long[..8].iter().all(|value| components(*value) == nothing));
    assert!(long[8..].iter().all(|value| components(*value) == components(mark)));
    let mut short = vec![mark; 5];
    compute_joint_residuals(bodies, joints, &mut short, 4);
    assert!(short[..4].iter().all(|value| components(*value) == nothing));
    assert_eq!(components(short[4]), components(mark));
    let mut generic = vec![mark; 10];
    compute_joint_residuals_generic(bodies, joints, &mut generic);
    assert!(generic[..8].iter().all(|value| components(*value) == nothing));
    assert!(generic[8..].iter().all(|value| components(*value) == components(mark)));

    let mut ends = vec![mark; 3];
    finalize_joint_residuals(&mut ends, &[mark], &[0, 0]);
    assert_eq!(
        ends.iter().map(|end| components(*end)).collect::<Vec<_>>(),
        vec![nothing, nothing, components(mark)]
    );
    let mut ends = vec![mark];
    finalize_joint_residuals(&mut ends, &[mark], &[0, 7]);
    assert_eq!(components(ends[0]), nothing);

    let mut moved = bodies.clone();
    let multipliers = vec![mark; 8];
    let mut forces = vec![mark; 6];
    apply_joint_correction(&mut moved, &multipliers, &mut forces, 2);
    let force = mark.scale(ratio(-1, 2));
    assert!(forces[..4].iter().all(|value| components(*value) == components(force)));
    assert!(forces[4..].iter().all(|value| components(*value) == components(mark)));
}

#[test]
fn boxes_may_hold_anything_before_the_passes() {
    let simulation = ball_over_hub();
    let mut fresh = simulation.bodies.clone();
    let mut stale = simulation.bodies.clone();
    let count = simulation.solver_scratch.contact_chunk_min.len();
    let far = vector(ratio(900, 1), ratio(900, 1), ratio(900, 1));
    let mut boxes = (vec![Vec3::zero(); count], vec![Vec3::zero(); count]);
    let mut far_boxes = (vec![far; count + 2], vec![far; count + 2]);
    project_ball_contact_passes(
        &mut fresh,
        &simulation.previous_positions,
        &simulation.ball_indices,
        &mut boxes.0,
        &mut boxes.1,
    );
    project_ball_contact_passes(
        &mut stale,
        &simulation.previous_positions,
        &simulation.ball_indices,
        &mut far_boxes.0,
        &mut far_boxes.1,
    );
    assert_eq!(places(&fresh), places(&stale));
    assert_ne!(places(&fresh), places(&simulation.bodies));
}

#[test]
fn the_camera_keeps_its_direction() {
    for scene in [
        DemoScene::JointGrid,
        DemoScene::CylinderDrape,
        DemoScene::FallingBalls,
    ] {
        let base = default_camera::<Ratio>(scene);
        let near = base.position.sub(base.target);
        for (grid_size, factor) in [(2, ratio(1, 1)), (10, ratio(1, 1)), (25, ratio(8, 3))] {
            let scale: Ratio = camera_scale(grid_size);
            assert_eq!(scale, factor);
            let depth = camera_target_depth(scene, grid_size);
            let camera = scaled_camera(scene, depth, scale);
            assert_eq!(camera.target.z, depth);
            let far = camera.position.sub(camera.target);
            assert_eq!(components(far), components(near.scale(factor)));
        }
    }
}

fn turned(matrix: Mat3<Ratio>, point: Vec3<Ratio>) -> Vec3<Ratio> {
    matrix
        .x_axis
        .scale(point.x)
        .add(matrix.y_axis.scale(point.y))
        .add(matrix.z_axis.scale(point.z))
}

fn image(center: Vec3<Ratio>, matrix: Mat3<Ratio>) -> ControlPoints<Ratio> {
    let rest: ControlPoints<Ratio> = rod_rest_points();
    ControlPoints {
        p0: center.add(turned(matrix, rest.p0)),
        p1: center.add(turned(matrix, rest.p1)),
        p2: center.add(turned(matrix, rest.p2)),
        p3: center.add(turned(matrix, rest.p3)),
    }
}

#[test]
fn the_gradient_of_an_image_is_its_matrix() {
    let center = vector(ratio(1, 2), ratio(-3, 1), ratio(7, 4));
    let matrix = Mat3 {
        x_axis: vector(ratio(3, 2), ratio(1, 5), ratio(-1, 3)),
        y_axis: vector(ratio(0, 1), ratio(-2, 1), ratio(5, 7)),
        z_axis: vector(ratio(1, 9), ratio(4, 1), ratio(2, 3)),
    };
    let points = image(center, matrix);
    assert_eq!(columns(rod_deformation_gradient(points)), columns(matrix));
    let (fused_center, fused_gradient) = rod_center_and_deformation_gradient(points);
    assert_eq!(components(fused_center), components(center));
    assert_eq!(columns(fused_gradient), columns(matrix));
}

fn weighted(vectors: [Vec3<Ratio>; 4], factors: [Ratio; 4]) -> Vec3<Ratio> {
    let mut sum = Vec3::zero();
    for (vector, factor) in vectors.into_iter().zip(factors) {
        sum = sum.add(vector.scale(factor));
    }
    sum
}

fn covariance(offsets: [Vec3<Ratio>; 4], rest: [Vec3<Ratio>; 4]) -> Mat3<Ratio> {
    Mat3 {
        x_axis: weighted(offsets, rest.map(|point| point.x)),
        y_axis: weighted(offsets, rest.map(|point| point.y)),
        z_axis: weighted(offsets, rest.map(|point| point.z)),
    }
}

#[test]
fn the_gradient_takes_the_rest_shape_to_any_points() {
    let points = ControlPoints {
        p0: vector(ratio(1, 1), ratio(2, 3), ratio(-1, 2)),
        p1: vector(ratio(0, 1), ratio(5, 1), ratio(1, 4)),
        p2: vector(ratio(-7, 2), ratio(1, 1), ratio(3, 1)),
        p3: vector(ratio(2, 5), ratio(-1, 6), ratio(0, 1)),
    };
    let (center, gradient) = rod_center_and_deformation_gradient(points);
    assert_eq!(corners(image(center, gradient)), corners(points));

    let rest: ControlPoints<Ratio> = rod_rest_points();
    let rest_points = [rest.p0, rest.p1, rest.p2, rest.p3];
    let offsets = [points.p0, points.p1, points.p2, points.p3].map(|point| point.sub(center));
    let rest_covariance = covariance(rest_points, rest_points);
    let product = Mat3 {
        x_axis: turned(gradient, rest_covariance.x_axis),
        y_axis: turned(gradient, rest_covariance.y_axis),
        z_axis: turned(gradient, rest_covariance.z_axis),
    };
    assert_eq!(columns(covariance(offsets, rest_points)), columns(product));
}

#[test]
fn contacts_only_grow_boxes() {
    let simulation = ball_over_hub();
    let mut bodies = simulation.bodies.clone();
    let mut chunk_min = simulation.solver_scratch.contact_chunk_min.clone();
    let mut chunk_max = simulation.solver_scratch.contact_chunk_max.clone();
    rebuild_ball_contact_chunk_bounds(
        &bodies,
        &simulation.ball_indices,
        &mut chunk_min,
        &mut chunk_max,
    );
    let (first_min, first_max) = (chunk_min.clone(), chunk_max.clone());
    project_balls_against_chunked_net(
        &mut bodies,
        &simulation.previous_positions,
        &simulation.ball_indices,
        &mut chunk_min,
        &mut chunk_max,
    );
    for chunk in 0..first_min.len() {
        for axis in 0..3 {
            let (low, high) = (components(chunk_min[chunk]), components(chunk_max[chunk]));
            assert!(low[axis].le(components(first_min[chunk])[axis]));
            assert!(components(first_max[chunk])[axis].le(high[axis]));
        }
    }
    assert!(chunk_min[0].y.lt(first_min[0].y));
    assert_eq!(chunk_min.len(), first_min.len());
    assert_eq!(chunk_max.len(), first_max.len());
}
