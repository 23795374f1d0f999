#![allow(dead_code, unused_imports)]

use bevy::math::{DMat3, DQuat, DVec3};
use mabd::attachment::{
    attachment_position, interpolate_attachment, project_attachment_pair, rod_collider_attachments,
};
use mabd::body::{
    ball_rest_points, body_rest_points, centroid, hub_attachment_center, hub_center,
    hub_rest_points, rod_center_and_deformation_gradient, rod_deformation_gradient,
    rod_joint_endpoints, rod_rest_points, AffineBody, BodyKind, ControlPoints, Weights,
};
use mabd::constants::{
    CONTACT_PASSES, CONTACT_PROXY_CHUNK_SIZE, DEFAULT_GRID_SIZE, POLAR_NEWTON_ITERATIONS,
};
use mabd::joints::{Attachment, BallJoint, SolverScratch};
use mabd::scalar::Scalar;
use mabd::scene::DemoScene;
use mabd::simulation::NetSimulation;
use mabd::vector::{Mat3, Vec3};

/// Double precision numbers.
#[derive(Clone, Copy, Debug, PartialEq)]
struct Double(f64);

impl Scalar for Double {
    fn plus(self, other: Self) -> Self {
        Double(self.0 + other.0)
    }
    fn add(self, other: Self) -> Self {
        Double(self.0 + other.0)
    }
    fn minus(self, other: Self) -> Self {
        Double(self.0 - other.0)
    }
    fn sub(self, other: Self) -> Self {
        Double(self.0 - other.0)
    }
    fn times(self, other: Self) -> Self {
        Double(self.0 * other.0)
    }
    fn mul(self, other: Self) -> Self {
        Double(self.0 * other.0)
    }
    fn over(self, other: Self) -> Self {
        Double(self.0 / other.0)
    }
    fn div(self, other: Self) -> Self {
        Double(self.0 / other.0)
    }
    fn negated(self) -> Self {
        Double(-self.0)
    }
    fn neg(self) -> Self {
        Double(-self.0)
    }
    fn magnitude(self) -> Self {
        Double(self.0.abs())
    }
    fn abs(self) -> Self {
        Double(self.0.abs())
    }
    fn root(self) -> Self {
        Double(self.0.sqrt())
    }
    fn sqrt(self) -> Self {
        Double(self.0.sqrt())
    }
    fn power(self, exponent: Self) -> Self {
        Double(self.0.powf(exponent.0))
    }
    fn powf(self, exponent: Self) -> Self {
        Double(self.0.powf(exponent.0))
    }
    fn below(self, other: Self) -> bool {
        self.0 < other.0
    }
    fn lt(self, other: Self) -> bool {
        self.0 < other.0
    }
    fn at_most(self, other: Self) -> bool {
        self.0 <= other.0
    }
    fn le(self, other: Self) -> bool {
        self.0 <= other.0
    }
    fn finite(self) -> bool {
        self.0.is_finite()
    }
    fn is_finite(self) -> bool {
        self.0.is_finite()
    }
    fn bits(self) -> u64 {
        self.0.to_bits()
    }
    fn to_bits(self) -> u64 {
        self.0.to_bits()
    }
    fn fraction(numerator: i64, denominator: i64) -> Self {
        Double(numerator as f64 / denominator as f64)
    }
    fn from_fraction(numerator: i64, denominator: i64) -> Self {
        Double(numerator as f64 / denominator as f64)
    }
    fn single_fraction(numerator: i64, denominator: i64) -> Self {
        Double((numerator as f32 / denominator as f32) as f64)
    }
    fn from_single_fraction(numerator: i64, denominator: i64) -> Self {
        Double((numerator as f32 / denominator as f32) as f64)
    }
    fn count(value: usize) -> Self {
        Double(value as f64)
    }
    fn from_count(value: usize) -> Self {
        Double(value as f64)
    }
    fn unbounded() -> Self {
        Double(f64::INFINITY)
    }
    fn infinity() -> Self {
        Double(f64::INFINITY)
    }
    fn turned(direction: Vec3<Self>, point: Vec3<Self>) -> Vec3<Self> {
        Self::turn_from_x(direction, point)
    }
    fn turn_from_x(direction: Vec3<Self>, point: Vec3<Self>) -> Vec3<Self> {
        let rotation = DQuat::from_rotation_arc(DVec3::X, dvec(direction));
        vec3(rotation * dvec(point))
    }
}

type Simulation = NetSimulation<Double>;
type Body = AffineBody<Double>;
type Points = ControlPoints<Double>;

const DEFAULT_FIXED_HZ: f64 = 30.0;
const FIXED_HZ_OPTIONS: [f64; 5] = [30.0, 60.0, 120.0, 200.0, 500.0];
const GRID_SIZE_OPTIONS: [usize; 4] = [10, 25, 50, 100];
const HUB_RADIUS: f32 = 0.075;
const ROD_THICKNESS: f32 = 0.055;
const BALL_RADIUS: f32 = 0.34;
const CONTACT_EPSILON: f64 = 1.0e-12;
const SCENES: [DemoScene; 3] = [
    DemoScene::JointGrid,
    DemoScene::CylinderDrape,
    DemoScene::FallingBalls,
];

fn dvec(value: Vec3<Double>) -> DVec3 {
    DVec3::new(value.x.0, value.y.0, value.z.0)
}

fn vec3(value: DVec3) -> Vec3<Double> {
    Vec3 {
        x: Double(value.x),
        y: Double(value.y),
        z: Double(value.z),
    }
}

fn dvecs(values: &[Vec3<Double>]) -> Vec<DVec3> {
    values.iter().map(|&value| dvec(value)).collect()
}

fn dmat(value: Mat3<Double>) -> DMat3 {
    DMat3::from_cols(dvec(value.x_axis), dvec(value.y_axis), dvec(value.z_axis))
}

fn mat3(value: DMat3) -> Mat3<Double> {
    Mat3 {
        x_axis: vec3(value.x_axis),
        y_axis: vec3(value.y_axis),
        z_axis: vec3(value.z_axis),
    }
}

fn array(points: Points) -> [DVec3; 4] {
    [
        dvec(points.p0),
        dvec(points.p1),
        dvec(points.p2),
        dvec(points.p3),
    ]
}

fn points(values: [DVec3; 4]) -> Points {
    ControlPoints {
        p0: vec3(values[0]),
        p1: vec3(values[1]),
        p2: vec3(values[2]),
        p3: vec3(values[3]),
    }
}

fn positions(bodies: &[Body]) -> Vec<[DVec3; 4]> {
    bodies.iter().map(|body| array(body.positions)).collect()
}

fn history(previous: &[Points]) -> Vec<[DVec3; 4]> {
    previous.iter().map(|&points| array(points)).collect()
}

fn dvec3_bits(value: DVec3) -> [u64; 3] {
    [value.x.to_bits(), value.y.to_bits(), value.z.to_bits()]
}

fn assert_bit_exact(actual: &[Vec3<Double>], expected: &[Vec3<Double>], context: &str) {
    assert_eq!(actual.len(), expected.len(), "{context} length");
    for (index, (&actual, &expected)) in actual.iter().zip(expected).enumerate() {
        assert_eq!(
            dvec3_bits(dvec(actual)),
            dvec3_bits(dvec(expected)),
            "{context} at vector {index}"
        );
    }
}

fn maximum_position_error(first: &[Body], second: &[Body]) -> f64 {
    positions(first)
        .iter()
        .flatten()
        .zip(positions(second).iter().flatten())
        .map(|(first, second)| (*first - *second).length())
        .fold(0.0_f64, f64::max)
}

fn trajectory_errors(first: &[Body], second: &[Body]) -> (f64, f64) {
    let mut squared_error_sum = 0.0;
    let mut point_count = 0;
    let mut maximum_error = 0.0_f64;
    for (first, second) in positions(first).iter().zip(positions(second)) {
        for (first_point, second_point) in first.iter().zip(second) {
            let error = (*first_point - second_point).length();
            squared_error_sum += error * error;
            point_count += 1;
            maximum_error = maximum_error.max(error);
        }
    }
    ((squared_error_sum / point_count as f64).sqrt(), maximum_error)
}

fn component_error(actual: DMat3, expected: DMat3) -> f64 {
    actual
        .to_cols_array()
        .into_iter()
        .zip(expected.to_cols_array())
        .map(|(actual, expected)| (actual - expected).abs())
        .fold(0.0_f64, f64::max)
}

fn orthonormality_error(rotation: DMat3) -> f64 {
    (rotation.transpose() * rotation - DMat3::IDENTITY)
        .to_cols_array()
        .into_iter()
        .map(f64::abs)
        .fold(0.0_f64, f64::max)
}

fn default_step() -> Double {
    Double(1.0 / DEFAULT_FIXED_HZ)
}

fn predict_for_test(simulation: &mut Simulation, dt: Double) {
    for (body, previous) in simulation
        .bodies
        .iter_mut()
        .zip(&mut simulation.previous_positions)
    {
        body.predict(previous, dt);
    }
}

fn simulation_is_finite(simulation: &Simulation) -> bool {
    simulation.bodies.len() == simulation.previous_positions.len()
        && simulation
            .bodies
            .iter()
            .zip(&simulation.previous_positions)
            .all(|(body, previous)| {
                array(body.positions)
                    .iter()
                    .chain(&array(*previous))
                    .chain(&array(body.predicted_positions))
                    .all(|value| value.is_finite())
            })
}

fn maximum_joint_gap(simulation: &Simulation) -> f64 {
    simulation
        .joints
        .iter()
        .map(|joint| {
            (dvec(attachment_position(&simulation.bodies, joint.a))
                - dvec(attachment_position(&simulation.bodies, joint.b)))
            .length()
        })
        .fold(0.0, f64::max)
}

fn scratch_for(bodies: &[Body], joints: &[BallJoint<Double>], hubs: usize) -> SolverScratch<Double> {
    SolverScratch::new(bodies.len(), joints.len(), hubs)
}

use mabd::camera::{camera_scale, camera_target_depth, default_camera, scaled_camera};
use mabd::fixed::{Fixed, UNIT};
use mabd::joints::chunk_count;
use mabd::net::{build_net, cylinder_length, cylinder_origin_z, grid_span, is_pinned, place_node};
use mabd::overlay::{append_decimal, backend_hint, backend_text, overlay_text, OverlayReport};
use mabd::scene::{
    body_appearance, button_style, first_pressed_size, fixed_hz_options, grid_size_options,
    last_pressed, rate_selected, switch_demo_scene, ActiveDemo, BodyMaterial, BodyMesh,
    ButtonState, ButtonStyle, DemoKeys, SimulationBackend,
};
use mabd::tasks::{
    ball_bound_tasks, correction_tasks, cylinder_tasks, div_ceil, projection_tasks,
    residual_tasks, CorrectionTasks, ProjectionTasks,
};
use mabd::topology::debug_validate_direct_solver_topology;
use mabd::world::{
    actor_density, capsule_half_height, collision_layer, create_world_plan, engine_is_ready,
    engine_status, layer_accepts, rod_box_length, rotation_is_valid, scene_id, simulation_filter,
    sphere_volume, unpack_poses, ActorShape, CollisionLayer, RodConnection, WorldPlan,
};

const NO_KEYS: DemoKeys = DemoKeys {
    digit_1: false,
    digit_2: false,
    digit_3: false,
    backend: false,
    reset: false,
};

const START: ActiveDemo = ActiveDemo {
    scene: DemoScene::JointGrid,
    backend: SimulationBackend::Project,
    grid_size: 10,
};

fn fixed(numerator: i64, denominator: i64) -> Fixed {
    Fixed::from_fraction(numerator, denominator)
}

#[test]
fn options_are_the_offered_sizes_and_rates() {
    assert_eq!(grid_size_options(), vec![10, 25, 50, 100]);
    let rates: Vec<f64> = fixed_hz_options::<Double>().iter().map(|rate| rate.0).collect();
    assert_eq!(rates, vec![30.0, 60.0, 120.0, 200.0, 500.0]);
}

#[test]
fn scenes_have_numbers_and_titles() {
    let named: Vec<(usize, &str)> = SCENES
        .iter()
        .map(|scene| (scene.number(), scene.title()))
        .collect();
    assert_eq!(
        named,
        vec![(1, "Joint grid"), (2, "Cylinder drape"), (3, "Falling balls")]
    );
}

#[test]
fn backend_toggles_only_where_the_engine_is_there() {
    let project = SimulationBackend::Project;
    let physx = SimulationBackend::Physx;
    assert_eq!(project.toggled(true), physx);
    assert_eq!(physx.toggled(true), project);
    assert_eq!(project.toggled(false), project);
    assert_eq!(physx.toggled(false), project);
}

#[test]
fn digit_keys_choose_the_scene() {
    let cases = [
        (DemoKeys { digit_1: true, ..NO_KEYS }, DemoScene::JointGrid),
        (DemoKeys { digit_2: true, ..NO_KEYS }, DemoScene::CylinderDrape),
        (DemoKeys { digit_3: true, ..NO_KEYS }, DemoScene::FallingBalls),
    ];
    for (keys, scene) in cases {
        assert_eq!(
            switch_demo_scene(START, keys, None, true),
            Some(ActiveDemo { scene, ..START })
        );
    }
}

#[test]
fn earlier_keys_win_over_later_ones() {
    let all = DemoKeys {
        digit_1: true,
        digit_2: true,
        digit_3: true,
        backend: true,
        reset: true,
    };
    let balls = ActiveDemo { scene: DemoScene::FallingBalls, ..START };
    assert_eq!(
        switch_demo_scene(balls, all, Some(25), true),
        Some(ActiveDemo { scene: DemoScene::JointGrid, ..balls })
    );
    let last_two = DemoKeys { backend: true, reset: true, ..NO_KEYS };
    assert_eq!(
        switch_demo_scene(balls, last_two, Some(25), true),
        Some(ActiveDemo { backend: SimulationBackend::Physx, ..balls })
    );
    assert_eq!(switch_demo_scene(balls, last_two, Some(25), false), Some(balls));
}

#[test]
fn backend_key_does_nothing_without_the_engine() {
    let keys = DemoKeys { backend: true, ..NO_KEYS };
    assert_eq!(switch_demo_scene(START, keys, None, false), None);
}

#[test]
fn reset_rebuilds_the_same_demo() {
    let keys = DemoKeys { reset: true, ..NO_KEYS };
    assert_eq!(switch_demo_scene(START, keys, None, true), Some(START));
}

#[test]
fn another_size_rebuilds_and_the_same_size_does_not() {
    assert_eq!(
        switch_demo_scene(START, NO_KEYS, Some(50), true),
        Some(ActiveDemo { grid_size: 50, ..START })
    );
    assert_eq!(switch_demo_scene(START, NO_KEYS, Some(10), true), None);
    assert_eq!(switch_demo_scene(START, NO_KEYS, None, true), None);
}

#[test]
fn pressed_buttons_are_found_from_their_side() {
    assert_eq!(first_pressed_size(&[]), None);
    assert_eq!(first_pressed_size(&[(false, 10), (false, 25)]), None);
    assert_eq!(
        first_pressed_size(&[(false, 10), (true, 25), (true, 50)]),
        Some(25)
    );
    assert_eq!(last_pressed(&[]), None);
    assert_eq!(last_pressed(&[false, false]), None);
    assert_eq!(last_pressed(&[true, true, false]), Some(1));
}

#[test]
fn buttons_show_what_they_are() {
    assert_eq!(button_style(ButtonState::Pressed, true), ButtonStyle::Pressed);
    assert_eq!(button_style(ButtonState::Hovered, true), ButtonStyle::Hovered);
    assert_eq!(button_style(ButtonState::Idle, true), ButtonStyle::Selected);
    assert_eq!(button_style(ButtonState::Idle, false), ButtonStyle::Plain);
}

#[test]
fn rate_is_selected_within_half_a_hertz() {
    assert!(rate_selected(Double(30.0), Double(30.4)));
    assert!(rate_selected(Double(30.0), Double(29.6)));
    assert!(!rate_selected(Double(30.0), Double(30.5)));
    assert!(!rate_selected(Double(30.0), Double(60.0)));
}

#[test]
fn bodies_are_drawn_by_kind() {
    assert_eq!(
        body_appearance(BodyKind::Hub { fixed: true }),
        (BodyMesh::Hub, BodyMaterial::Fixed)
    );
    assert_eq!(
        body_appearance(BodyKind::Hub { fixed: false }),
        (BodyMesh::Hub, BodyMaterial::Hub)
    );
    assert_eq!(body_appearance(BodyKind::Rod), (BodyMesh::Rod, BodyMaterial::Rod));
    assert_eq!(body_appearance(BodyKind::Ball), (BodyMesh::Ball, BodyMaterial::Ball));
}

#[test]
fn decimals_are_written_in_full() {
    for (value, expected) in [(0, "n=0"), (7, "n=7"), (10, "n=10"), (29800, "n=29800")] {
        let mut text = String::from("n=");
        append_decimal(&mut text, value);
        assert_eq!(text, expected);
    }
}

#[test]
fn overlay_reports_the_running_demo() {
    let report = OverlayReport {
        scene: DemoScene::CylinderDrape,
        backend: SimulationBackend::Physx,
        engine_status: String::from("READY"),
        grid_size: 25,
        fps: String::from("59.9"),
        frame_time: String::from("16.69"),
        step_time: String::from("1.234"),
        fixed_hz: String::from("120"),
        body_count: 1825,
        joint_count: 2400,
        physx_available: true,
    };
    assert_eq!(
        overlay_text(&report),
        "SCENE 2/3  Cylinder drape\nBACKEND  PHYSX READY\nGRID     25x25\nFPS      59.9\n\
         FRAME    16.69 ms\nSIM STEP 1.234 ms\nFIXED    120 Hz\n1825 bodies | 2400 joints\n\
         [1] Grid  [2] Cylinder  [3] Balls  [B] Backend  [R] Reset"
    );
    assert_eq!(backend_text(SimulationBackend::Project, "READY"), "PROJECT");
    assert_eq!(backend_text(SimulationBackend::Physx, "LOADING"), "PHYSX LOADING");
    assert_eq!(backend_hint(true), "[B] Backend");
    assert_eq!(backend_hint(false), "PhysX disabled");
}

#[test]
fn camera_stands_back_with_the_net() {
    assert_eq!(camera_scale::<Double>(10).0, 1.0);
    assert_eq!(camera_scale::<Double>(2).0, 1.0);
    assert!((camera_scale::<Double>(100).0 - 11.0).abs() < 1.0e-12);
    assert!((camera_target_depth::<Double>(DemoScene::JointGrid, 10).0 + 2.2).abs() < 1.0e-12);
    assert!((camera_target_depth::<Double>(DemoScene::CylinderDrape, 10).0 + 2.3).abs() < 1.0e-12);
    assert_eq!(camera_target_depth::<Double>(DemoScene::FallingBalls, 100).0, 0.0);
    let base = default_camera::<Double>(DemoScene::JointGrid);
    assert_eq!(dvec(base.position), DVec3::new(7.2, 4.6, 10.5));
    assert_eq!(dvec(base.target), DVec3::new(0.0, 0.7, -2.2));
    let camera = scaled_camera(DemoScene::JointGrid, Double(-5.0), Double(2.0));
    assert_eq!(dvec(camera.target), DVec3::new(0.0, 0.7, -5.0));
    assert!((dvec(camera.position) - DVec3::new(14.4, 8.5, 20.4)).length() < 1.0e-12);
}

#[test]
fn net_keeps_its_spacing_and_the_cylinder_its_margin() {
    for grid_size in GRID_SIZE_OPTIONS {
        for scene in SCENES {
            let first = dvec(place_node(scene, grid_size, 0, 0));
            let beside = dvec(place_node(scene, grid_size, 0, 1));
            let below = dvec(place_node(scene, grid_size, 1, 0));
            assert!(((beside - first).length() - 0.55).abs() < 1.0e-12);
            assert!(((below - first).length() - 0.55).abs() < 1.0e-12);
        }
        let span = grid_span::<Double>(grid_size).0;
        let margin = cylinder_length::<Double>(grid_size).0 - span;
        assert!((margin - (f64::from(5.80_f32) - 4.95)).abs() < 1.0e-12);
        let offset = cylinder_origin_z::<Double>(grid_size).0 + span * 0.5;
        assert!((offset - (-2.3 + 4.95 * 0.5)).abs() < 1.0e-12);
    }
}

#[test]
fn hubs_meet_as_many_joints_as_they_have_neighbors() {
    let (_, joints) = build_net::<Double>(DemoScene::JointGrid, 4);
    let mut degree = [0; 16];
    for joint in &joints {
        degree[joint.b.body] += 1;
    }
    assert_eq!(degree, [2, 3, 3, 2, 3, 4, 4, 3, 3, 4, 4, 3, 2, 3, 3, 2]);
}

#[test]
fn edges_and_corners_are_pinned() {
    for row in 0..5 {
        for column in 0..5 {
            assert_eq!(is_pinned(DemoScene::JointGrid, 5, row, column), row == 0);
            assert_eq!(is_pinned(DemoScene::CylinderDrape, 5, row, column), row == 0);
            assert_eq!(
                is_pinned(DemoScene::FallingBalls, 5, row, column),
                (row == 0 || row == 4) && (column == 0 || column == 4)
            );
        }
    }
}

#[test]
fn pinned_hubs_stay_through_steps() {
    for scene in SCENES {
        let mut simulation = Simulation::with_grid_size(scene, 4);
        let start = positions(&simulation.bodies);
        for _ in 0..30 {
            simulation.step(default_step());
        }
        let after = positions(&simulation.bodies);
        for (index, body) in simulation.bodies.iter().enumerate() {
            if body.fixed {
                assert_eq!(after[index], start[index]);
            } else {
                assert_ne!(after[index], start[index]);
            }
        }
    }
}

#[test]
fn direct_solver_topology_is_checked() {
    let simulation = Simulation::with_grid_size(DemoScene::FallingBalls, 3);
    let bodies = &simulation.bodies;
    let joints = &simulation.joints;
    assert!(debug_validate_direct_solver_topology(bodies, joints, 3));
    assert!(!debug_validate_direct_solver_topology(bodies, joints, 4));
    assert!(!debug_validate_direct_solver_topology(&bodies[..8], joints, 3));
    assert!(!debug_validate_direct_solver_topology(bodies, &joints[1..], 3));
    assert!(!debug_validate_direct_solver_topology(bodies, &joints[2..], 3));

    let mut wrong_hub = joints.clone();
    wrong_hub[0].b.body = 5;
    assert!(!debug_validate_direct_solver_topology(bodies, &wrong_hub, 3));
    let mut wrong_end = joints.clone();
    wrong_end[0].a.weights = hub_center();
    assert!(!debug_validate_direct_solver_topology(bodies, &wrong_end, 3));
    let mut fixed_rod = bodies.clone();
    fixed_rod[9].fixed = true;
    assert!(!debug_validate_direct_solver_topology(&fixed_rod, joints, 3));
    let mut no_hub = bodies.clone();
    no_hub[4].kind = BodyKind::Ball;
    assert!(!debug_validate_direct_solver_topology(&no_hub, joints, 3));
}

#[test]
fn world_has_an_actor_for_every_body() {
    for scene in SCENES {
        let simulation = Simulation::with_grid_size(scene, 4);
        let plan: WorldPlan<Double> = create_world_plan(scene, 4);
        assert_eq!(plan.actors.len(), simulation.bodies.len());
        assert_eq!(plan.cylinder.is_some(), scene == DemoScene::CylinderDrape);
        for (actor, body) in plan.actors.iter().zip(&simulation.bodies) {
            let shape = match body.kind {
                BodyKind::Hub { .. } => ActorShape::Hub,
                BodyKind::Rod => ActorShape::Rod,
                BodyKind::Ball => ActorShape::Ball,
            };
            assert_eq!(actor.shape, shape);
            assert_eq!(actor.fixed, body.fixed);
            assert!((dvec(actor.position) - dvec(body.centroid())).length() < 1.0e-12);
        }
        assert_eq!(plan.connections.len() * 2, simulation.joints.len());
        for (connection, pair) in plan.connections.iter().zip(simulation.joints.chunks(2)) {
            assert_eq!(connection.rod, pair[0].a.body);
            assert_eq!(connection.start_hub, pair[0].b.body);
            assert_eq!(connection.end_hub, pair[1].b.body);
        }
    }
}

#[test]
fn world_joins_neighbors_by_rods_along_their_line() {
    let plan: WorldPlan<Double> = create_world_plan(DemoScene::JointGrid, 2);
    assert_eq!(
        plan.connections,
        vec![
            RodConnection { rod: 4, start_hub: 0, end_hub: 1 },
            RodConnection { rod: 5, start_hub: 2, end_hub: 3 },
            RodConnection { rod: 6, start_hub: 0, end_hub: 2 },
            RodConnection { rod: 7, start_hub: 1, end_hub: 3 },
        ]
    );
    let fixed: Vec<bool> = plan.actors.iter().map(|actor| actor.fixed).collect();
    assert_eq!(fixed, [true, true, false, false, false, false, false, false]);
    assert!((dvec(plan.actors[4].position) - DVec3::new(0.0, 3.0, 0.0)).length() < 1.0e-12);
    assert!((dvec(plan.actors[4].direction) - DVec3::X).length() < 1.0e-12);
    assert!((dvec(plan.actors[6].position) - DVec3::new(-0.275, 3.0, -0.275)).length() < 1.0e-12);
    assert!((dvec(plan.actors[6].direction) + DVec3::Z).length() < 1.0e-12);
}

#[test]
fn engine_shapes_have_sizes_and_densities() {
    let radius = f64::from(0.70_f32);
    let length = f64::from(5.80_f32);
    assert!((capsule_half_height::<Double>(10).0 - (length * 0.5 - radius)).abs() < 1.0e-12);
    let circle = f64::from(std::f32::consts::PI);
    assert!((sphere_volume(Double(3.0)).0 - 36.0 * circle).abs() < 1.0e-9);
    assert!((rod_box_length::<Double>().0 - 0.55 * f64::from(0.78_f32)).abs() < 1.0e-12);
    let hub = f64::from(HUB_RADIUS);
    let ball = f64::from(BALL_RADIUS);
    let rod = f64::from(ROD_THICKNESS);
    let expected = [
        (ActorShape::Hub, 0.18 / (4.0 / 3.0 * circle * hub.powi(3))),
        (ActorShape::Rod, 0.24 / (0.55 * f64::from(0.78_f32) * rod * rod)),
        (ActorShape::Ball, 1.2 / (4.0 / 3.0 * circle * ball.powi(3))),
    ];
    for (shape, density) in expected {
        assert!((actor_density::<Double>(shape).0 / density - 1.0).abs() < 1.0e-12);
    }
}

#[test]
fn collisions_are_mutual_and_the_net_passes_through_itself() {
    let layers = [CollisionLayer::Net, CollisionLayer::Collider, CollisionLayer::Ball];
    let accepted = [
        [false, true, true],
        [true, false, false],
        [true, false, true],
    ];
    for (first, row) in layers.iter().zip(accepted) {
        for (second, expected) in layers.iter().zip(row) {
            assert_eq!(layer_accepts(*first, *second), expected);
            assert_eq!(layer_accepts(*second, *first), expected);
        }
    }
    assert_eq!(collision_layer(ActorShape::Hub), CollisionLayer::Net);
    assert_eq!(collision_layer(ActorShape::Rod), CollisionLayer::Net);
    assert_eq!(collision_layer(ActorShape::Ball), CollisionLayer::Ball);
}

#[test]
fn filter_needs_both_sides() {
    assert!(simulation_filter(1, 6, 2, 1));
    assert!(!simulation_filter(1, 6, 2, 4));
    assert!(!simulation_filter(1, 4, 2, 1));
    assert!(!simulation_filter(0, 7, 0, 7));
}

#[test]
fn poses_come_in_whole_sevens() {
    let values: Vec<Double> = (0..14).map(|value| Double(f64::from(value))).collect();
    let poses = match unpack_poses(&values) {
        Some(poses) => poses,
        None => panic!("two poses"),
    };
    assert_eq!(poses.len(), 2);
    assert_eq!(dvec(poses[1].position), DVec3::new(7.0, 8.0, 9.0));
    assert_eq!(
        [poses[1].x.0, poses[1].y.0, poses[1].z.0, poses[1].w.0],
        [10.0, 11.0, 12.0, 13.0]
    );
    assert!(poses[0].rotation_valid);
    assert!(unpack_poses(&values[..13]).is_none());
    assert!(unpack_poses(&values[..6]).is_none());
    assert!(unpack_poses::<Double>(&[]).is_none());
    let mut broken = values.clone();
    broken[10] = Double(f64::NAN);
    for value in &mut broken[3..7] {
        *value = Double(0.0);
    }
    let poses = match unpack_poses(&broken) {
        Some(poses) => poses,
        None => panic!("two poses"),
    };
    assert!(!poses[0].rotation_valid);
    assert!(!poses[1].rotation_valid);
}

#[test]
fn rotations_are_finite_and_long_enough() {
    let small = Double(1.0e-7);
    let zero = Double(0.0);
    assert!(rotation_is_valid(zero, zero, zero, Double(1.0)));
    assert!(!rotation_is_valid(zero, zero, zero, small));
    assert!(!rotation_is_valid(Double(f64::INFINITY), zero, zero, Double(1.0)));
}

#[test]
fn engine_reports_in_words() {
    let words: Vec<&str> = (0..4).map(engine_status).collect();
    assert_eq!(words, ["LOADING", "READY", "ERROR", "LOADING"]);
    let ready: Vec<bool> = (0..4).map(engine_is_ready).collect();
    assert_eq!(ready, [false, true, false, false]);
    let ids: Vec<u32> = SCENES.iter().map(|&scene| scene_id(scene)).collect();
    assert_eq!(ids, [1, 2, 3]);
}

#[test]
fn quotients_round_up() {
    for (value, parts, expected) in [(0, 3, 0), (1, 3, 1), (3, 3, 1), (4, 3, 2), (usize::MAX, 1, usize::MAX)] {
        assert_eq!(div_ceil(value, parts), expected);
    }
    assert_eq!(chunk_count(0), 0);
    assert_eq!(chunk_count(32), 1);
    assert_eq!(chunk_count(33), 2);
}

#[test]
fn few_bodies_are_not_cut_up() {
    assert_eq!(projection_tasks(100, 180, 280, Some(8)), None);
    assert_eq!(projection_tasks(625, 1200, 1825, None), None);
    assert_eq!(projection_tasks(625, 1200, 1825, Some(1)), None);
    assert_eq!(cylinder_tasks(3_999, Some(8)), None);
    assert_eq!(cylinder_tasks(4_000, Some(0)), None);
    assert_eq!(cylinder_tasks(4_000, None), None);
    assert_eq!(ball_bound_tasks(3_999, Some(8)), None);
    assert_eq!(ball_bound_tasks(7_400, Some(1)), None);
    assert_eq!(ball_bound_tasks(7_400, None), None);
    assert_eq!(correction_tasks(625, 1_200, 2_400, 25, Some(8)), None);
    assert_eq!(correction_tasks(2_500, 4_900, 9_800, 50, Some(1)), None);
    assert_eq!(correction_tasks(2_500, 4_900, 9_800, 50, None), None);
    assert_eq!(residual_tasks(4_900, 9_800, Some(8)), None);
    assert_eq!(residual_tasks(19_800, 39_600, Some(1)), None);
    assert_eq!(residual_tasks(19_800, 39_600, None), None);
}

#[test]
fn many_bodies_are_cut_up_by_threads() {
    assert_eq!(
        projection_tasks(625, 1_200, 1_825, Some(8)),
        Some(ProjectionTasks { hubs_per_task: 79, rods_per_task: 150 })
    );
    assert_eq!(
        projection_tasks(2_500, 4_900, 7_400, Some(8)),
        Some(ProjectionTasks { hubs_per_task: 313, rods_per_task: 206 })
    );
    assert_eq!(cylinder_tasks(7_400, Some(8)), Some(463));
    assert_eq!(ball_bound_tasks(7_400, Some(4)), Some(58));
    assert_eq!(ball_bound_tasks(7_400, Some(64)), Some(29));
    assert_eq!(
        correction_tasks(2_500, 4_900, 9_800, 50, Some(8)),
        Some(CorrectionTasks {
            hubs_per_task: 1_250,
            horizontal_rows_per_task: 17,
            vertical_rows_per_task: 17,
        })
    );
    assert_eq!(residual_tasks(19_800, 39_600, Some(8)), Some(2_475));
}

#[test]
fn fixed_point_numbers_round_down_and_stop_at_their_bounds() {
    assert_eq!(fixed(1, 2).raw, UNIT / 2);
    assert_eq!(fixed(1, 3).raw, 1_431_655_765);
    assert_eq!(fixed(-1, 3).raw, -1_431_655_766);
    assert_eq!(fixed(3, 2).mul(fixed(5, 2)), fixed(15, 4));
    assert_eq!(Fixed { raw: -1 }.mul(fixed(1, 2)).raw, -1);
    assert_eq!(fixed(15, 4).div(fixed(-5, 2)), fixed(-3, 2));
    assert_eq!(fixed(1, 1).div(fixed(0, 1)), fixed(0, 1));
    assert_eq!(fixed(9, 4).sqrt(), fixed(3, 2));
    assert_eq!(fixed(2, 1).sqrt().raw, 6_074_000_999);
    assert_eq!(fixed(-4, 1).sqrt(), fixed(0, 1));
    assert_eq!(fixed(3, 2).powf(fixed(3, 1)), fixed(27, 8));
    assert_eq!(fixed(3, 2).powf(fixed(5, 2)), fixed(9, 4));
    assert_eq!(fixed(3, 2).powf(fixed(-1, 1)), fixed(1, 1));
    let most = Fixed { raw: i64::MAX };
    let least = Fixed { raw: i64::MIN };
    assert_eq!(most.add(fixed(1, 1)), most);
    assert_eq!(least.sub(fixed(1, 1)), least);
    assert_eq!(most.mul(fixed(-2, 1)), least);
    assert_eq!(least.neg(), most);
    assert_eq!(least.abs(), most);
    assert_eq!(Fixed::infinity(), most);
    assert_eq!(Fixed::from_count(7), fixed(7, 1));
    assert!(most.is_finite());
    assert_eq!(fixed(-1, 1).to_bits(), (-UNIT) as u64);
    assert!(fixed(1, 3).lt(fixed(1, 2)) && !fixed(1, 2).lt(fixed(1, 2)));
    assert!(fixed(1, 2).le(fixed(1, 2)) && !fixed(1, 2).le(fixed(1, 3)));
}

#[test]
fn fixed_point_points_turn_with_the_direction() {
    let one = fixed(1, 1);
    let zero = fixed(0, 1);
    let point = Vec3 { x: one, y: fixed(2, 1), z: fixed(3, 1) };
    let up = Vec3 { x: zero, y: one, z: zero };
    let turned = Fixed::turn_from_x(up, point);
    assert_eq!(
        [turned.x, turned.y, turned.z],
        [fixed(-2, 1), one, fixed(3, 1)]
    );
    let along = Fixed::turn_from_x(Vec3 { x: one, y: zero, z: zero }, point);
    assert_eq!([along.x, along.y, along.z], [point.x, point.y, point.z]);
}

#[test]
fn fixed_point_net_hangs_from_its_pinned_edge() {
    let mut simulation: NetSimulation<Fixed> =
        NetSimulation::with_grid_size(DemoScene::JointGrid, 3);
    let start = simulation.bodies[8].positions.p0.y;
    let pinned = simulation.bodies[1].positions.p0;
    for _ in 0..10 {
        simulation.step(fixed(1, 30));
    }
    let after = simulation.bodies[1].positions.p0;
    assert_eq!([after.x, after.y, after.z], [pinned.x, pinned.y, pinned.z]);
    assert!(simulation.bodies[8].positions.p0.y.lt(start));
}
