//! Where the camera stands: the further back, the wider the net.

use crate::constants::DEFAULT_GRID_SIZE;
use crate::net::{cylinder_origin_z, cylinder_z, grid_span, span_of};
use crate::scalar::{half, one, zero, Scalar};
use crate::scene::DemoScene;
use crate::vector::Vec3;
use vstd::prelude::*;

verus! {

/// How much further away the camera stands than from the default net; never closer.
pub open spec fn distance_factor<S: Scalar>(grid_size: usize) -> S {
    let ratio = span_of::<S>(grid_size).over(span_of::<S>(DEFAULT_GRID_SIZE));
    if one::<S>().below(ratio) {
        ratio
    } else {
        one()
    }
}

pub fn camera_scale<S: Scalar>(grid_size: usize) -> (result: S)
    ensures
        result == distance_factor::<S>(grid_size),
{
    let ratio = grid_span::<S>(grid_size).div(grid_span(DEFAULT_GRID_SIZE));
    if one::<S>().lt(ratio) {
        ratio
    } else {
        one()
    }
}

/// How far along z the point lies that the camera looks at.
pub open spec fn target_depth<S: Scalar>(scene: DemoScene, grid_size: usize) -> S {
    match scene {
        DemoScene::JointGrid => span_of::<S>(grid_size).negated().times(half()).plus(
            S::fraction(275, 1000),
        ),
        DemoScene::CylinderDrape => cylinder_z(grid_size),
        DemoScene::FallingBalls => zero(),
    }
}

pub fn camera_target_depth<S: Scalar>(scene: DemoScene, grid_size: usize) -> (result: S)
    ensures
        result == target_depth::<S>(scene, grid_size),
{
    match scene {
        DemoScene::JointGrid => grid_span::<S>(grid_size).neg().mul(half()).add(
            S::from_fraction(275, 1000),
        ),
        DemoScene::CylinderDrape => cylinder_origin_z(grid_size),
        DemoScene::FallingBalls => zero(),
    }
}

/// Where the camera stands and what it looks at.
#[derive(Clone, Copy)]
pub struct CameraPlacement<S> {
    pub position: Vec3<S>,
    pub target: Vec3<S>,
}

/// Where the camera stands before the default net, and what it looks at there.
#[verifier::allow_in_spec]
pub fn default_camera<S: Scalar>(scene: DemoScene) -> (result: CameraPlacement<S>)
    returns
        (match scene {
            DemoScene::JointGrid => CameraPlacement::<S> {
                position: Vec3 {
                    x: S::fraction(72, 10),
                    y: S::fraction(46, 10),
                    z: S::fraction(105, 10),
                },
                target: Vec3 { x: zero(), y: S::fraction(7, 10), z: S::fraction(22, 10).negated() },
            },
            DemoScene::CylinderDrape => CameraPlacement::<S> {
                position: Vec3 {
                    x: S::fraction(72, 10),
                    y: S::fraction(5, 1),
                    z: S::fraction(105, 10),
                },
                target: Vec3 { x: zero(), y: S::fraction(16, 10), z: S::fraction(23, 10).negated() },
            },
            DemoScene::FallingBalls => CameraPlacement::<S> {
                position: Vec3 {
                    x: S::fraction(74, 10),
                    y: S::fraction(57, 10),
                    z: S::fraction(88, 10),
                },
                target: Vec3 { x: zero(), y: S::fraction(18, 10), z: zero() },
            },
        }),
{
    match scene {
        DemoScene::JointGrid => CameraPlacement {
            position: Vec3 {
                x: S::from_fraction(72, 10),
                y: S::from_fraction(46, 10),
                z: S::from_fraction(105, 10),
            },
            target: Vec3 {
                x: zero(),
                y: S::from_fraction(7, 10),
                z: S::from_fraction(22, 10).neg(),
            },
        },
        DemoScene::CylinderDrape => CameraPlacement {
            position: Vec3 {
                x: S::from_fraction(72, 10),
                y: S::from_fraction(5, 1),
                z: S::from_fraction(105, 10),
            },
            target: Vec3 {
                x: zero(),
                y: S::from_fraction(16, 10),
                z: S::from_fraction(23, 10).neg(),
            },
        },
        DemoScene::FallingBalls => CameraPlacement {
            position: Vec3 {
                x: S::from_fraction(74, 10),
                y: S::from_fraction(57, 10),
                z: S::from_fraction(88, 10),
            },
            target: Vec3 { x: zero(), y: S::from_fraction(18, 10), z: zero() },
        },
    }
}

/// The camera in the direction in which it stands before the default net, `scale` times as
/// far from a target at the given depth.
pub open spec fn camera_at<S: Scalar>(scene: DemoScene, depth: S, scale: S) -> CameraPlacement<S> {
    let base = default_camera::<S>(scene);
    let target = Vec3 { x: base.target.x, y: base.target.y, z: depth };
    CameraPlacement {
        position: target.plus(base.position.minus(base.target).scaled(scale)),
        target,
    }
}

pub fn scaled_camera<S: Scalar>(scene: DemoScene, depth: S, scale: S) -> (result: CameraPlacement<S>)
    ensures
        result == camera_at(scene, depth, scale),
{
    let base = default_camera::<S>(scene);
    let target = Vec3 { x: base.target.x, y: base.target.y, z: depth };
    CameraPlacement { position: target.add(base.position.sub(base.target).scale(scale)), target }
}

} // verus!
