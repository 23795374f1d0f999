//! Affine bodies: four control points each, and what one body does by itself.

use crate::constants::{
    affine_stiffness, ball_radius, gravity, grid_spacing, hub_radius, rod_thickness,
    POLAR_NEWTON_ITERATIONS,
};
use crate::polar::{
    closest_rotation, closest_rotation_after, closest_rotation_with_divisive_final,
    closest_rotation_with_iterations, newton_rounds, orthonormalized,
};
use crate::scalar::{half, one, quarter, zero, Scalar};
use crate::vector::{Mat3, Vec3};
use vstd::prelude::*;

verus! {

/// The control points of a body.
#[derive(Clone, Copy)]
pub struct ControlPoints<S> {
    pub p0: Vec3<S>,
    pub p1: Vec3<S>,
    pub p2: Vec3<S>,
    pub p3: Vec3<S>,
}

/// One weight for each control point.
#[derive(Clone, Copy)]
pub struct Weights<S> {
    pub w0: S,
    pub w1: S,
    pub w2: S,
    pub w3: S,
}

/// What a body is.
#[derive(Clone, Copy, PartialEq, Eq, Structural, Debug)]
pub enum BodyKind {
    Hub { fixed: bool },
    Rod,
    Ball,
}

/// A body that its control points place and deform.
#[derive(Clone, Copy)]
pub struct AffineBody<S> {
    pub kind: BodyKind,
    pub fixed: bool,
    pub positions: ControlPoints<S>,
    pub predicted_positions: ControlPoints<S>,
    pub inertia: S,
    pub inverse_diagonal: S,
}

/// The joint weights of a hub: its centre.
#[verifier::allow_in_spec]
pub fn hub_center<S: Scalar>() -> (result: Weights<S>)
    returns
        (Weights::<S> { w0: quarter(), w1: quarter(), w2: quarter(), w3: quarter() }),
{
    Weights { w0: quarter(), w1: quarter(), w2: quarter(), w3: quarter() }
}

/// The joint weights of a rod's first end.
#[verifier::allow_in_spec]
pub fn rod_start<S: Scalar>() -> (result: Weights<S>)
    returns
        (Weights::<S> { w0: half(), w1: half(), w2: zero(), w3: zero() }),
{
    Weights { w0: half(), w1: half(), w2: zero(), w3: zero() }
}

/// The joint weights of a rod's second end.
#[verifier::allow_in_spec]
pub fn rod_end<S: Scalar>() -> (result: Weights<S>)
    returns
        (Weights::<S> { w0: zero(), w1: zero(), w2: half(), w3: half() }),
{
    Weights { w0: zero(), w1: zero(), w2: half(), w3: half() }
}

/// A quarter of the mass of a body.
#[verifier::allow_in_spec]
pub fn body_mass_per_point<S: Scalar>(kind: BodyKind) -> (result: S)
    returns
        (match kind {
            BodyKind::Hub { .. } => S::fraction(18, 100).over(S::fraction(4, 1)),
            BodyKind::Rod => S::fraction(24, 100).over(S::fraction(4, 1)),
            BodyKind::Ball => S::fraction(12, 10).over(S::fraction(4, 1)),
        }),
{
    match kind {
        BodyKind::Hub { .. } => S::from_fraction(18, 100).div(S::from_fraction(4, 1)),
        BodyKind::Rod => S::from_fraction(24, 100).div(S::from_fraction(4, 1)),
        BodyKind::Ball => S::from_fraction(12, 10).div(S::from_fraction(4, 1)),
    }
}

/// The corners of a regular tetrahedron with the given half edge of its cube.
#[verifier::allow_in_spec]
pub fn tetrahedron<S: Scalar>(scale: S) -> (result: ControlPoints<S>)
    returns
        ({
            let up = one::<S>();
            let down = one::<S>().negated();
            ControlPoints::<S> {
                p0: Vec3 { x: up, y: up, z: up }.scaled(scale),
                p1: Vec3 { x: up, y: down, z: down }.scaled(scale),
                p2: Vec3 { x: down, y: up, z: down }.scaled(scale),
                p3: Vec3 { x: down, y: down, z: up }.scaled(scale),
            }
        }),
{
    let up = one::<S>();
    let down = one::<S>().neg();
    ControlPoints {
        p0: Vec3::new(up, up, up).scale(scale),
        p1: Vec3::new(up, down, down).scale(scale),
        p2: Vec3::new(down, up, down).scale(scale),
        p3: Vec3::new(down, down, up).scale(scale),
    }
}

/// The control points of a hub about its centre: on a sphere of its radius.
#[verifier::allow_in_spec]
pub fn hub_rest_points<S: Scalar>() -> (result: ControlPoints<S>)
    returns
        tetrahedron(hub_radius::<S>().over(S::fraction(3, 1).root())),
{
    tetrahedron(hub_radius::<S>().div(S::from_fraction(3, 1).sqrt()))
}

/// The control points of a ball about its centre: on a sphere of its radius.
#[verifier::allow_in_spec]
pub fn ball_rest_points<S: Scalar>() -> (result: ControlPoints<S>)
    returns
        tetrahedron(ball_radius::<S>().over(S::fraction(3, 1).root())),
{
    tetrahedron(ball_radius::<S>().div(S::from_fraction(3, 1).sqrt()))
}

/// Half the length of a rod.
#[verifier::allow_in_spec]
pub fn rod_half_length<S: Scalar>() -> (result: S)
    returns
        grid_spacing::<S>().times(half()),
{
    grid_spacing::<S>().mul(half())
}

/// Half the thickness of a rod.
#[verifier::allow_in_spec]
pub fn rod_radius<S: Scalar>() -> (result: S)
    returns
        rod_thickness::<S>().times(half()),
{
    rod_thickness::<S>().mul(half())
}

/// The control points of a rod along x about its centre: two at each end, on alternate
/// edges of its box.
#[verifier::allow_in_spec]
pub fn rod_rest_points<S: Scalar>() -> (result: ControlPoints<S>)
    returns
        ({
            let length = rod_half_length::<S>();
            let radius = rod_radius::<S>();
            ControlPoints::<S> {
                p0: Vec3 { x: length.negated(), y: radius.negated(), z: radius.negated() },
                p1: Vec3 { x: length.negated(), y: radius, z: radius },
                p2: Vec3 { x: length, y: radius.negated(), z: radius },
                p3: Vec3 { x: length, y: radius, z: radius.negated() },
            }
        }),
{
    let length = rod_half_length::<S>();
    let radius = rod_radius::<S>();
    ControlPoints {
        p0: Vec3::new(length.neg(), radius.neg(), radius.neg()),
        p1: Vec3::new(length.neg(), radius, radius),
        p2: Vec3::new(length, radius.neg(), radius),
        p3: Vec3::new(length, radius, radius.neg()),
    }
}

/// The control points of a body of the given kind about its centre, not yet turned.
#[verifier::allow_in_spec]
pub fn body_rest_points<S: Scalar>(kind: BodyKind) -> (result: ControlPoints<S>)
    returns
        (match kind {
            BodyKind::Hub { .. } => hub_rest_points::<S>(),
            BodyKind::Rod => rod_rest_points::<S>(),
            BodyKind::Ball => ball_rest_points::<S>(),
        }),
{
    match kind {
        BodyKind::Hub { .. } => hub_rest_points(),
        BodyKind::Rod => rod_rest_points(),
        BodyKind::Ball => ball_rest_points(),
    }
}

/// The mean of the points: their sum, then a quarter of it.
#[verifier::allow_in_spec]
pub fn centroid<S: Scalar>(points: ControlPoints<S>) -> (result: Vec3<S>)
    returns
        points.p0.plus(points.p1).plus(points.p2).plus(points.p3).scaled(quarter()),
{
    points.p0.add(points.p1).add(points.p2).add(points.p3).scale(quarter())
}

/// Where the joints of a hub hold it: a quarter of each point, then their sum.
#[verifier::allow_in_spec]
pub fn hub_attachment_center<S: Scalar>(points: ControlPoints<S>) -> (result: Vec3<S>)
    returns
        points.p0.scaled(quarter()).plus(points.p1.scaled(quarter())).plus(
            points.p2.scaled(quarter()),
        ).plus(points.p3.scaled(quarter())),
{
    points.p0.scale(quarter()).add(points.p1.scale(quarter())).add(points.p2.scale(quarter())).add(
        points.p3.scale(quarter()),
    )
}

/// Where the joints at a rod's two ends hold it.
#[verifier::allow_in_spec]
pub fn rod_joint_endpoints<S: Scalar>(points: ControlPoints<S>) -> (result: (Vec3<S>, Vec3<S>))
    returns
        (
            points.p0.scaled(half()).plus(points.p1.scaled(half())),
            points.p2.scaled(half()).plus(points.p3.scaled(half())),
        ),
{
    (
        points.p0.scale(half()).add(points.p1.scale(half())),
        points.p2.scale(half()).add(points.p3.scale(half())),
    )
}

/// The weighted sum of the points, starting from zero.
#[verifier::allow_in_spec]
pub fn weighted_point<S: Scalar>(points: ControlPoints<S>, weights: Weights<S>) -> (result: Vec3<S>)
    returns
        Vec3::<S>::origin().plus(points.p0.scaled(weights.w0)).plus(
            points.p1.scaled(weights.w1),
        ).plus(points.p2.scaled(weights.w2)).plus(points.p3.scaled(weights.w3)),
{
    Vec3::zero().add(points.p0.scale(weights.w0)).add(points.p1.scale(weights.w1)).add(
        points.p2.scale(weights.w2),
    ).add(points.p3.scale(weights.w3))
}

/// One over four half lengths of a rod.
#[verifier::allow_in_spec]
pub fn inverse_four_half_length<S: Scalar>() -> (result: S)
    returns
        one::<S>().over(S::fraction(2, 1).times(grid_spacing())),
{
    one::<S>().div(S::from_fraction(2, 1).mul(grid_spacing()))
}

/// One over four radii of a rod.
#[verifier::allow_in_spec]
pub fn inverse_four_radius<S: Scalar>() -> (result: S)
    returns
        one::<S>().over(S::fraction(2, 1).times(rod_thickness())),
{
    one::<S>().div(S::from_fraction(2, 1).mul(rod_thickness()))
}

/// The centre of a rod and the matrix that takes its rest shape to its points, from shared
/// sums and differences.
#[verifier::allow_in_spec]
pub fn rod_center_and_deformation_gradient<S: Scalar>(points: ControlPoints<S>) -> (result: (
    Vec3<S>,
    Mat3<S>,
))
    returns
        ({
            let sum_01 = points.p0.plus(points.p1);
            let sum_23 = points.p2.plus(points.p3);
            let difference_01 = points.p1.minus(points.p0);
            let difference_23 = points.p3.minus(points.p2);
            (
                sum_01.plus(sum_23).scaled(quarter()),
                Mat3::<S> {
                    x_axis: sum_23.minus(sum_01).scaled(inverse_four_half_length()),
                    y_axis: difference_01.plus(difference_23).scaled(inverse_four_radius()),
                    z_axis: difference_01.minus(difference_23).scaled(inverse_four_radius()),
                },
            )
        }),
{
    let sum_01 = points.p0.add(points.p1);
    let sum_23 = points.p2.add(points.p3);
    let difference_01 = points.p1.sub(points.p0);
    let difference_23 = points.p3.sub(points.p2);
    (
        sum_01.add(sum_23).scale(quarter()),
        Mat3::from_cols(
            sum_23.sub(sum_01).scale(inverse_four_half_length()),
            difference_01.add(difference_23).scale(inverse_four_radius()),
            difference_01.sub(difference_23).scale(inverse_four_radius()),
        ),
    )
}

/// The matrix that takes a rod's rest shape to its points, one column at a time.
#[verifier::allow_in_spec]
pub fn rod_deformation_gradient<S: Scalar>(points: ControlPoints<S>) -> (result: Mat3<S>)
    returns
        (Mat3::<S> {
            x_axis: points.p0.negated().minus(points.p1).plus(points.p2).plus(points.p3).scaled(
                inverse_four_half_length(),
            ),
            y_axis: points.p0.negated().plus(points.p1).minus(points.p2).plus(points.p3).scaled(
                inverse_four_radius(),
            ),
            z_axis: points.p0.negated().plus(points.p1).plus(points.p2).minus(points.p3).scaled(
                inverse_four_radius(),
            ),
        }),
{
    Mat3::from_cols(
        points.p0.neg().sub(points.p1).add(points.p2).add(points.p3).scale(
            inverse_four_half_length(),
        ),
        points.p0.neg().add(points.p1).sub(points.p2).add(points.p3).scale(inverse_four_radius()),
        points.p0.neg().add(points.p1).add(points.p2).sub(points.p3).scale(inverse_four_radius()),
    )
}

/// Where a free point goes in one step: its old velocity and gravity carry it on.
#[verifier::allow_in_spec]
pub fn predict_point<S: Scalar>(
    position: Vec3<S>,
    previous: Vec3<S>,
    dt: S,
    previous_velocity_scale: S,
) -> (result: Vec3<S>)
    returns
        position.plus(
            position.minus(previous).scaled(previous_velocity_scale).scaled(dt),
        ).plus(gravity::<S>().scaled(dt.times(dt))),
{
    let velocity = position.sub(previous).scale(previous_velocity_scale);
    position.add(velocity.scale(dt)).add(gravity().scale(dt.mul(dt)))
}

impl<S: Scalar> AffineBody<S> {
    /// A body at rest whose points lie at `offsets` about `translation`.
    #[verifier::allow_in_spec]
    pub fn new(
        kind: BodyKind,
        offsets: ControlPoints<S>,
        translation: Vec3<S>,
        fixed: bool,
    ) -> (result: Self)
        returns
            ({
                let positions = ControlPoints {
                    p0: translation.plus(offsets.p0),
                    p1: translation.plus(offsets.p1),
                    p2: translation.plus(offsets.p2),
                    p3: translation.plus(offsets.p3),
                };
                AffineBody {
                    kind,
                    fixed,
                    positions,
                    predicted_positions: positions,
                    inertia: zero(),
                    inverse_diagonal: zero(),
                }
            }),
    {
        let positions = ControlPoints {
            p0: translation.add(offsets.p0),
            p1: translation.add(offsets.p1),
            p2: translation.add(offsets.p2),
            p3: translation.add(offsets.p3),
        };
        AffineBody {
            kind,
            fixed,
            positions,
            predicted_positions: positions,
            inertia: zero(),
            inverse_diagonal: zero(),
        }
    }

    pub fn centroid(&self) -> (result: Vec3<S>)
        ensures
            result == centroid(self.positions),
    {
        centroid(self.positions)
    }

    /// The rotation that a body is shown with: that of a rod's points, none for the others.
    pub fn rotation(&self) -> (result: Mat3<S>)
        ensures
            result == (match self.kind {
                BodyKind::Rod => closest_rotation_after(
                    rod_deformation_gradient(self.positions),
                    POLAR_NEWTON_ITERATIONS as nat,
                ),
                BodyKind::Hub { .. } | BodyKind::Ball => Mat3::unit(),
            }),
    {
        match self.kind {
            BodyKind::Rod => closest_rotation(rod_deformation_gradient(self.positions)),
            BodyKind::Hub { .. } | BodyKind::Ball => Mat3::identity(),
        }
    }

    /// The body with the coefficients of a step of length `dt`. Those of a fixed body are
    /// zero.
    pub open spec fn with_coefficients(self, dt: S) -> Self {
        if self.fixed {
            AffineBody { inertia: zero(), inverse_diagonal: zero(), ..self }
        } else {
            let inertia = body_mass_per_point::<S>(self.kind).over(dt.times(dt));
            AffineBody {
                inertia,
                inverse_diagonal: one::<S>().over(inertia.plus(affine_stiffness())),
                ..self
            }
        }
    }

    pub fn update_time_step_coefficients(&mut self, dt: S)
        ensures
            *final(self) == old(self).with_coefficients(dt),
    {
        if self.fixed {
            self.inertia = zero();
            self.inverse_diagonal = zero();
            return ;
        }
        self.inertia = body_mass_per_point::<S>(self.kind).div(dt.mul(dt));
        self.inverse_diagonal = one::<S>().div(self.inertia.add(affine_stiffness()));
    }

    /// The body at the start of a step, its points where velocity and gravity carry them.
    pub open spec fn predicted(self, previous: ControlPoints<S>, dt: S, scale: S) -> Self {
        if self.fixed {
            AffineBody { predicted_positions: self.positions, ..self }
        } else {
            let points = ControlPoints {
                p0: predict_point(self.positions.p0, previous.p0, dt, scale),
                p1: predict_point(self.positions.p1, previous.p1, dt, scale),
                p2: predict_point(self.positions.p2, previous.p2, dt, scale),
                p3: predict_point(self.positions.p3, previous.p3, dt, scale),
            };
            AffineBody { positions: points, predicted_positions: points, ..self }
        }
    }

    pub fn predict_positions(
        &mut self,
        previous_positions: &mut ControlPoints<S>,
        dt: S,
        previous_velocity_scale: S,
    )
        ensures
            *final(self) == old(self).predicted(
                *old(previous_positions),
                dt,
                previous_velocity_scale,
            ),
            *final(previous_positions) == old(self).positions,
    {
        let previous = *previous_positions;
        *previous_positions = self.positions;
        if self.fixed {
            self.predicted_positions = self.positions;
            return ;
        }
        let points = ControlPoints {
            p0: predict_point(self.positions.p0, previous.p0, dt, previous_velocity_scale),
            p1: predict_point(self.positions.p1, previous.p1, dt, previous_velocity_scale),
            p2: predict_point(self.positions.p2, previous.p2, dt, previous_velocity_scale),
            p3: predict_point(self.positions.p3, previous.p3, dt, previous_velocity_scale),
        };
        self.predicted_positions = points;
        self.positions = points;
    }

    /// The first prediction of a body, which has no velocity yet.
    pub fn predict(&mut self, previous_positions: &mut ControlPoints<S>, dt: S)
        ensures
            *final(self) == old(self).with_coefficients(dt).predicted(
                *old(previous_positions),
                dt,
                zero(),
            ),
            *final(previous_positions) == old(self).positions,
    {
        self.update_time_step_coefficients(dt);
        self.predict_positions(previous_positions, dt, zero());
    }

    /// The weight of the prediction in a shape projection.
    pub open spec fn prediction_weight(self) -> S {
        self.inertia.times(self.inverse_diagonal)
    }

    /// The weight of the rigid shape in a shape projection.
    pub open spec fn shape_weight(self) -> S {
        affine_stiffness::<S>().times(self.inverse_diagonal)
    }

    /// A rod between its prediction and the rigid rod with the given centre and rotation.
    pub open spec fn with_rod_shape(
        self,
        center: Vec3<S>,
        rotation: Mat3<S>,
        prediction: S,
        shape: S,
    ) -> Self {
        let x = rotation.x_axis.scaled(rod_half_length());
        let y = rotation.y_axis.scaled(rod_radius());
        let z = rotation.z_axis.scaled(rod_radius());
        AffineBody {
            positions: ControlPoints {
                p0: self.predicted_positions.p0.scaled(prediction).plus(
                    center.plus(x.negated().minus(y).minus(z)).scaled(shape),
                ),
                p1: self.predicted_positions.p1.scaled(prediction).plus(
                    center.plus(x.negated().plus(y).plus(z)).scaled(shape),
                ),
                p2: self.predicted_positions.p2.scaled(prediction).plus(
                    center.plus(x.minus(y).plus(z)).scaled(shape),
                ),
                p3: self.predicted_positions.p3.scaled(prediction).plus(
                    center.plus(x.plus(y).minus(z)).scaled(shape),
                ),
            },
            ..self
        }
    }

    pub fn project_rod_shape_from_rotation(
        &mut self,
        center: Vec3<S>,
        rotation: Mat3<S>,
        prediction_weight: S,
        shape_weight: S,
    )
        ensures
            *final(self) == old(self).with_rod_shape(
                center,
                rotation,
                prediction_weight,
                shape_weight,
            ),
    {
        let x = rotation.x_axis.scale(rod_half_length());
        let y = rotation.y_axis.scale(rod_radius());
        let z = rotation.z_axis.scale(rod_radius());
        let predicted = self.predicted_positions;
        self.positions = ControlPoints {
            p0: predicted.p0.scale(prediction_weight).add(
                center.add(x.neg().sub(y).sub(z)).scale(shape_weight),
            ),
            p1: predicted.p1.scale(prediction_weight).add(
                center.add(x.neg().add(y).add(z)).scale(shape_weight),
            ),
            p2: predicted.p2.scale(prediction_weight).add(
                center.add(x.sub(y).add(z)).scale(shape_weight),
            ),
            p3: predicted.p3.scale(prediction_weight).add(
                center.add(x.add(y).sub(z)).scale(shape_weight),
            ),
        };
    }

    /// A rod drawn towards the rigid rod that its points are closest to. The variants differ
    /// in the rounds of the closest rotation, in whether the last of them divides, and in
    /// whether centre and gradient share their sums.
    pub open spec fn rod_projected(
        self,
        polar_iterations: nat,
        division_free_final: bool,
        fused_geometry: bool,
    ) -> Self {
        let (center, gradient) = if fused_geometry {
            rod_center_and_deformation_gradient(self.positions)
        } else {
            (centroid(self.positions), rod_deformation_gradient(self.positions))
        };
        let rotation = if division_free_final {
            closest_rotation_after(gradient, polar_iterations)
        } else {
            orthonormalized(newton_rounds(gradient, polar_iterations).0)
        };
        self.with_rod_shape(center, rotation, self.prediction_weight(), self.shape_weight())
    }

    pub fn project_rod_shape<
        const POLAR_ITERATIONS: usize,
        const DIVISION_FREE_FINAL: bool,
        const FUSED_GEOMETRY: bool,
    >(&mut self)
        ensures
            *final(self) == old(self).rod_projected(
                POLAR_ITERATIONS as nat,
                DIVISION_FREE_FINAL,
                FUSED_GEOMETRY,
            ),
    {
        let prediction_weight = self.inertia.mul(self.inverse_diagonal);
        let shape_weight = affine_stiffness::<S>().mul(self.inverse_diagonal);
        let (center, gradient) = if FUSED_GEOMETRY {
            rod_center_and_deformation_gradient(self.positions)
        } else {
            (self.centroid(), rod_deformation_gradient(self.positions))
        };
        let rotation = if DIVISION_FREE_FINAL {
            closest_rotation_with_iterations::<S, POLAR_ITERATIONS>(gradient)
        } else {
            closest_rotation_with_divisive_final::<S, POLAR_ITERATIONS>(gradient)
        };
        self.project_rod_shape_from_rotation(center, rotation, prediction_weight, shape_weight);
    }

    /// A body that does not turn, its rest points about the mean of its centre and its
    /// predicted centre.
    pub open spec fn center_projected(self, rest_points: ControlPoints<S>) -> Self {
        let center = centroid(self.predicted_positions).scaled(self.prediction_weight()).plus(
            centroid(self.positions).scaled(self.shape_weight()),
        );
        AffineBody {
            positions: ControlPoints {
                p0: center.plus(rest_points.p0),
                p1: center.plus(rest_points.p1),
                p2: center.plus(rest_points.p2),
                p3: center.plus(rest_points.p3),
            },
            ..self
        }
    }

    pub fn project_center_attached_shape<const BALL: bool>(&mut self)
        ensures
            *final(self) == old(self).center_projected(
                if BALL {
                    ball_rest_points()
                } else {
                    hub_rest_points()
                },
            ),
    {
        let center = self.centroid();
        let prediction_weight = self.inertia.mul(self.inverse_diagonal);
        let shape_weight = affine_stiffness::<S>().mul(self.inverse_diagonal);
        let predicted_center = centroid(self.predicted_positions);
        let projected_center = predicted_center.scale(prediction_weight).add(
            center.scale(shape_weight),
        );
        let rest_points: ControlPoints<S> = if BALL {
            ball_rest_points()
        } else {
            hub_rest_points()
        };
        self.positions = ControlPoints {
            p0: projected_center.add(rest_points.p0),
            p1: projected_center.add(rest_points.p1),
            p2: projected_center.add(rest_points.p2),
            p3: projected_center.add(rest_points.p3),
        };
    }

    /// A hub after its shape projection; a fixed one stays.
    pub open spec fn hub_projected(self) -> Self {
        if self.fixed {
            self
        } else {
            self.center_projected(hub_rest_points())
        }
    }

    pub fn project_hub_shape(&mut self)
        ensures
            *final(self) == old(self).hub_projected(),
    {
        if self.fixed {
            return ;
        }
        self.project_center_attached_shape::<false>();
    }

    /// A ball after its shape projection.
    pub open spec fn ball_projected(self) -> Self {
        self.center_projected(ball_rest_points())
    }

    pub fn project_ball_shape(&mut self)
        ensures
            *final(self) == old(self).ball_projected(),
    {
        self.project_center_attached_shape::<true>();
    }

    /// The shape projection that belongs to the kind of the body.
    pub open spec fn shape_projected(self, polar_iterations: nat) -> Self {
        match self.kind {
            BodyKind::Hub { .. } => self.hub_projected(),
            BodyKind::Rod => self.rod_projected(polar_iterations, true, true),
            BodyKind::Ball => self.ball_projected(),
        }
    }

    pub fn project_corotated_shape_with_polar_iterations<const POLAR_ITERATIONS: usize>(&mut self)
        ensures
            *final(self) == old(self).shape_projected(POLAR_ITERATIONS as nat),
    {
        match self.kind {
            BodyKind::Hub { .. } => self.project_hub_shape(),
            BodyKind::Rod => self.project_rod_shape::<POLAR_ITERATIONS, true, true>(),
            BodyKind::Ball => self.project_ball_shape(),
        }
    }

    pub fn project_corotated_shape(&mut self)
        ensures
            *final(self) == old(self).shape_projected(POLAR_NEWTON_ITERATIONS as nat),
    {
        self.project_corotated_shape_with_polar_iterations::<POLAR_NEWTON_ITERATIONS>();
    }
}

/// Whether a body differs from what it was in its position at most, and not at all if it is
/// fixed.
pub open spec fn body_only_moved<S: Scalar>(before: AffineBody<S>, after: AffineBody<S>) -> bool {
    &&& after == (AffineBody { positions: after.positions, ..before })
    &&& before.fixed ==> after == before
}

/// Whether no body of a list has changed but by moving, and no fixed one at all.
pub open spec fn only_moved<S: Scalar>(
    before: Seq<AffineBody<S>>,
    after: Seq<AffineBody<S>>,
) -> bool {
    &&& after.len() == before.len()
    &&& forall|i: int|
        0 <= i < before.len() ==> body_only_moved(before[i], #[trigger] after[i])
}

/// Two rounds of moving are one.
pub proof fn lemma_only_moved_transitive<S: Scalar>(
    first: Seq<AffineBody<S>>,
    second: Seq<AffineBody<S>>,
    third: Seq<AffineBody<S>>,
)
    requires
        only_moved(first, second),
        only_moved(second, third),
    ensures
        only_moved(first, third),
{
    assert forall|i: int| 0 <= i < first.len() implies body_only_moved(
        first[i],
        #[trigger] third[i],
    ) by {
        assert(body_only_moved(first[i], second[i]));
        assert(body_only_moved(second[i], third[i]));
    }
}

} // verus!
