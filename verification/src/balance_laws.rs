//! What weighs how much, and where the shape projection draws a body between its prediction
//! and its rigid shape.

use crate::body::{
    ball_rest_points, body_mass_per_point, body_rest_points, centroid, hub_rest_points,
    rod_deformation_gradient, rod_half_length, rod_radius, rod_rest_points, tetrahedron,
    AffineBody, BodyKind,
};
use crate::constants::{affine_stiffness, ball_radius, grid_spacing, hub_radius, rod_thickness};
use crate::field::{
    exact, lemma_commute, lemma_difference, lemma_distribute, lemma_distribute_left,
    lemma_negated_product, lemma_negation, lemma_one, lemma_parts, lemma_product_associate,
    lemma_product_commute, lemma_quotient, lemma_zero,
};
use crate::grid::lemma_counts;
use crate::polar::closest_rotation_after;
use crate::rotation_laws::{
    is_rotation, lemma_closest_is_rotation, lemma_division_free, lemma_exchange_pairs, lemma_root,
    lemma_rooted, lemma_rotation_kept, rooted,
};
use crate::scalar::{one, zero, Scalar};
use crate::shape_laws::{
    affine_image, drawn_point, lemma_fused_geometry, lemma_gradient_of_image,
    lemma_rod_shape_points, rods_have_size,
};
use crate::simulation::{jointed, layout, shaped, standard_variant, Motion, Setup, Variant};
use crate::start_laws::{balanced, lemma_centered_body, lemma_tetrahedron_balanced};
use crate::unturned_laws::{about, unturned};
use crate::vector::{Mat3, Vec3};
use vstd::prelude::*;

verus! {

/// The mass of a body.
pub open spec fn body_mass<S: Scalar>(kind: BodyKind) -> S {
    match kind {
        BodyKind::Hub { .. } => S::fraction(18, 100),
        BodyKind::Rod => S::fraction(24, 100),
        BodyKind::Ball => S::fraction(12, 10),
    }
}

/// The four points of a body carry its mass evenly.
pub proof fn lemma_mass_shared<S: Scalar>(kind: BodyKind)
    requires
        exact::<S>(),
        S::fraction(4, 1) == one::<S>().plus(one()).plus(one()).plus(one()),
        S::fraction(4, 1) != zero::<S>(),
    ensures
        ({
            let share = body_mass_per_point::<S>(kind);
            share.plus(share).plus(share).plus(share) == body_mass::<S>(kind)
        }),
{
    let share = body_mass_per_point::<S>(kind);
    let two = one::<S>().plus(one());
    lemma_quotient(body_mass::<S>(kind), S::fraction(4, 1));
    lemma_one(share);
    lemma_distribute_left(one(), one(), share);
    lemma_distribute_left(two, one(), share);
    lemma_distribute_left(two.plus(one()), one(), share);
}

/// In exact arithmetic a step gives a free body an inertia that is its share of the mass by
/// the square of the length of the step, and the inverse of inertia and stiffness together; a
/// fixed body has neither. Nothing else of it changes.
pub proof fn lemma_coefficients<S: Scalar>(body: AffineBody<S>, dt: S)
    requires
        exact::<S>(),
        dt.times(dt) != zero::<S>(),
    ensures
        ({
            let after = body.with_coefficients(dt);
            let whole = after.inertia.plus(S::fraction(12000, 1));
            &&& !body.fixed ==> after.inertia.times(dt.times(dt)) == body_mass::<S>(
                body.kind,
            ).over(S::fraction(4, 1))
            &&& !body.fixed && whole != zero::<S>() ==> after.inverse_diagonal.times(whole)
                == one::<S>()
            &&& body.fixed ==> after.inertia == zero::<S>() && after.inverse_diagonal
                == zero::<S>()
            &&& after.kind == body.kind
            &&& after.fixed == body.fixed
            &&& after.positions == body.positions
            &&& after.predicted_positions == body.predicted_positions
        }),
{
    if !body.fixed {
        let after = body.with_coefficients(dt);
        let whole = after.inertia.plus(S::fraction(12000, 1));
        lemma_quotient(body_mass_per_point::<S>(body.kind), dt.times(dt));
        if whole != zero::<S>() {
            lemma_quotient(one(), whole);
        }
    }
}

/// Whether the inverse diagonal of a body is the inverse of its inertia and stiffness together.
pub open spec fn weighed<S: Scalar>(body: AffineBody<S>) -> bool {
    body.inverse_diagonal.times(body.inertia.plus(S::fraction(12000, 1))) == one::<S>()
}

/// Whether a point balances a pull towards one place by inertia and towards another by
/// stiffness.
pub open spec fn balances<S: Scalar>(
    body: AffineBody<S>,
    point: Vec3<S>,
    predicted: Vec3<S>,
    target: Vec3<S>,
) -> bool {
    let whole = body.inertia.plus(S::fraction(12000, 1));
    point.scaled(whole) == predicted.scaled(body.inertia).plus(
        target.scaled(S::fraction(12000, 1)),
    )
}

proof fn lemma_drawn_coordinate_balances<S: Scalar>(
    predicted: S,
    target: S,
    inertia: S,
    inverse: S,
)
    requires
        exact::<S>(),
        inverse.times(inertia.plus(affine_stiffness())) == one::<S>(),
    ensures
        ({
            let whole = inertia.plus(affine_stiffness());
            let sum = predicted.times(inertia).plus(target.times(affine_stiffness()));
            &&& sum.times(inverse).times(whole) == sum
            &&& predicted.times(inertia.times(inverse)).plus(
                target.times(affine_stiffness::<S>().times(inverse)),
            ).times(whole) == sum
            &&& predicted == target ==> sum.times(inverse) == predicted
            &&& predicted == target ==> predicted.times(inertia.times(inverse)).plus(
                target.times(affine_stiffness::<S>().times(inverse)),
            ) == predicted
        }),
{
    let stiffness = affine_stiffness::<S>();
    let whole = inertia.plus(stiffness);
    let sum = predicted.times(inertia).plus(target.times(stiffness));
    lemma_product_associate(sum, inverse, whole);
    lemma_one(sum);
    lemma_distribute(predicted.times(inertia), target.times(stiffness), inverse);
    lemma_product_associate(predicted, inertia, inverse);
    lemma_product_associate(target, stiffness, inverse);
    lemma_distribute_left(inertia, stiffness, predicted);
    lemma_product_associate(predicted, whole, inverse);
    lemma_product_commute(whole, inverse);
    lemma_one(predicted);
}

proof fn lemma_drawn_balances<S: Scalar>(body: AffineBody<S>, predicted: Vec3<S>, target: Vec3<S>)
    requires
        exact::<S>(),
        weighed(body),
    ensures
        balances(body, drawn_point(body, predicted, target), predicted, target),
        predicted == target ==> drawn_point(body, predicted, target) == predicted,
        ({
            let point = predicted.scaled(body.prediction_weight()).plus(
                target.scaled(body.shape_weight()),
            );
            &&& balances(body, point, predicted, target)
            &&& predicted == target ==> point == predicted
        }),
{
    let (inertia, inverse) = (body.inertia, body.inverse_diagonal);
    lemma_drawn_coordinate_balances(predicted.x, target.x, inertia, inverse);
    lemma_drawn_coordinate_balances(predicted.y, target.y, inertia, inverse);
    lemma_drawn_coordinate_balances(predicted.z, target.z, inertia, inverse);
}

/// In exact arithmetic the shape projection puts every point of a rod where inertia, which
/// pulls it to its prediction, and stiffness, which pulls it to its place in a rigid rod,
/// balance. The rigid rod is turned by a rotation and lies about the centre of the points.
pub proof fn lemma_rod_balances<S: Scalar>(
    body: AffineBody<S>,
    iterations: nat,
    division_free: bool,
    fused: bool,
)
    requires
        rooted::<S>(),
        weighed(body),
    ensures
        ({
            let after = body.rod_projected(iterations, division_free, fused);
            let rotation = closest_rotation_after(
                rod_deformation_gradient(body.positions),
                iterations,
            );
            let rigid = affine_image(centroid(body.positions), rotation, rod_rest_points());
            let predicted = body.predicted_positions;
            &&& is_rotation(rotation)
            &&& balances(body, after.positions.p0, predicted.p0, rigid.p0)
            &&& balances(body, after.positions.p1, predicted.p1, rigid.p1)
            &&& balances(body, after.positions.p2, predicted.p2, rigid.p2)
            &&& balances(body, after.positions.p3, predicted.p3, rigid.p3)
            &&& after == (AffineBody { positions: after.positions, ..body })
        }),
{
    lemma_rooted::<S>();
    let rotation = closest_rotation_after(rod_deformation_gradient(body.positions), iterations);
    let rigid = affine_image(centroid(body.positions), rotation, rod_rest_points());
    let predicted = body.predicted_positions;
    lemma_closest_is_rotation(rod_deformation_gradient(body.positions), iterations);
    lemma_division_free(rod_deformation_gradient(body.positions), iterations);
    lemma_fused_geometry(body.positions);
    lemma_rod_shape_points(body, centroid(body.positions), rotation);
    lemma_drawn_balances(body, predicted.p0, rigid.p0);
    lemma_drawn_balances(body, predicted.p1, rigid.p1);
    lemma_drawn_balances(body, predicted.p2, rigid.p2);
    lemma_drawn_balances(body, predicted.p3, rigid.p3);
}

/// In exact arithmetic a rigid rod that is where it was predicted stays there.
pub proof fn lemma_rigid_rod_kept<S: Scalar>(
    body: AffineBody<S>,
    center: Vec3<S>,
    rotation: Mat3<S>,
    iterations: nat,
    division_free: bool,
    fused: bool,
)
    requires
        rooted::<S>(),
        rods_have_size::<S>(),
        weighed(body),
        is_rotation(rotation),
        body.positions == affine_image(center, rotation, rod_rest_points()),
        body.predicted_positions == body.positions,
    ensures
        body.rod_projected(iterations, division_free, fused) == body,
{
    lemma_rooted::<S>();
    let points = body.positions;
    lemma_gradient_of_image(center, rotation);
    lemma_rotation_kept(rotation, iterations);
    lemma_division_free(rotation, iterations);
    lemma_fused_geometry(points);
    lemma_rod_shape_points(body, center, rotation);
    lemma_drawn_balances(body, points.p0, points.p0);
    lemma_drawn_balances(body, points.p1, points.p1);
    lemma_drawn_balances(body, points.p2, points.p2);
    lemma_drawn_balances(body, points.p3, points.p3);
}

/// In exact arithmetic the shape projection puts a free hub or a ball, unturned, about the
/// place where the pull of inertia on its centre towards its prediction and that of stiffness
/// towards where it is balance. A fixed hub stays.
pub proof fn lemma_center_balances<S: Scalar>(body: AffineBody<S>)
    requires
        exact::<S>(),
        weighed(body),
    ensures
        body.kind is Hub && !body.fixed ==> ({
            let after = body.hub_projected();
            &&& after.positions == about(centroid(after.positions), hub_rest_points())
            &&& balances(
                body,
                centroid(after.positions),
                centroid(body.predicted_positions),
                centroid(body.positions),
            )
            &&& after == (AffineBody { positions: after.positions, ..body })
        }),
        body.kind is Ball ==> ({
            let after = body.ball_projected();
            &&& after.positions == about(centroid(after.positions), ball_rest_points())
            &&& balances(
                body,
                centroid(after.positions),
                centroid(body.predicted_positions),
                centroid(body.positions),
            )
            &&& after == (AffineBody { positions: after.positions, ..body })
        }),
        body.fixed ==> body.hub_projected() == body,
{
    let predicted = centroid(body.predicted_positions);
    let here = centroid(body.positions);
    let center = predicted.scaled(body.prediction_weight()).plus(
        here.scaled(body.shape_weight()),
    );
    lemma_drawn_balances(body, predicted, here);
    lemma_rest_balanced::<S>();
    lemma_centered_body(body.center_projected(hub_rest_points()), center, hub_rest_points());
    lemma_centered_body(body.center_projected(ball_rest_points()), center, ball_rest_points());
}

proof fn lemma_rest_balanced<S: Scalar>()
    requires
        exact::<S>(),
    ensures
        balanced(hub_rest_points::<S>()),
        balanced(ball_rest_points::<S>()),
{
    lemma_tetrahedron_balanced(hub_radius::<S>().over(S::fraction(3, 1).root()));
    lemma_tetrahedron_balanced(ball_radius::<S>().over(S::fraction(3, 1).root()));
}

/// In exact arithmetic an unturned hub or ball that is where it was predicted stays there.
pub proof fn lemma_unturned_kept<S: Scalar>(body: AffineBody<S>)
    requires
        exact::<S>(),
        weighed(body),
        unturned(body),
        body.predicted_positions == body.positions,
    ensures
        body.kind is Hub ==> body.hub_projected() == body,
        body.kind is Ball ==> body.ball_projected() == body,
{
    if !(body.kind is Rod) {
        let rest = body_rest_points::<S>(body.kind);
        let center = choose|center: Vec3<S>| body.positions == #[trigger] about(center, rest);
        lemma_rest_balanced::<S>();
        lemma_centered_body(body, center, rest);
        lemma_drawn_balances(body, center, center);
    }
}

/// In exact arithmetic a free ball that is where it was predicted, unturned, is still there
/// after the shapes and the joints of a round: only contacts can keep it from falling.
pub proof fn lemma_ball_goes_on<S: Scalar>(
    setup: Setup<S>,
    motion: Motion<S>,
    variant: Variant,
    ball: int,
)
    requires
        exact::<S>(),
        setup.well_formed(),
        motion.well_formed(setup),
        0 <= ball < motion.bodies.len(),
        motion.bodies[ball].kind is Ball,
        weighed(motion.bodies[ball]),
        unturned(motion.bodies[ball]),
        motion.bodies[ball].predicted_positions == motion.bodies[ball].positions,
    ensures
        shaped(setup, motion, variant).bodies[ball] == motion.bodies[ball],
        jointed(setup, shaped(setup, motion, variant)).bodies[ball]
            == motion.bodies[ball],
{
    let n = setup.grid_size as int;
    lemma_counts(n);
    let body = motion.bodies[ball];
    assert((body.kind, body.fixed) == layout(setup.scene, n, ball));
    lemma_unturned_kept(body);
}

/// The square of the distance of the corners of a tetrahedron from its middle.
proof fn lemma_corner_distance<S: Scalar>(radius: S)
    requires
        rooted::<S>(),
        S::fraction(3, 1) == one::<S>().plus(one()).plus(one()),
        S::fraction(3, 1) != zero::<S>(),
        zero::<S>().at_most(S::fraction(3, 1)),
    ensures
        ({
            let scale = radius.over(S::fraction(3, 1).root());
            let points = tetrahedron(scale);
            &&& points.p0.squared() == radius.times(radius)
            &&& points.p1.squared() == radius.times(radius)
            &&& points.p2.squared() == radius.times(radius)
            &&& points.p3.squared() == radius.times(radius)
        }),
{
    lemma_rooted::<S>();
    let three = S::fraction(3, 1);
    let root = three.root();
    let scale = radius.over(root);
    let square = scale.times(scale);
    lemma_root(three);
    lemma_zero(root);
    lemma_quotient(radius, root);
    lemma_one(scale);
    lemma_negated_product(one::<S>(), scale);
    lemma_negated_product(scale, scale);
    lemma_negated_product(scale, scale.negated());
    lemma_negation(square, square);
    lemma_distribute_left(one(), one(), square);
    lemma_distribute_left(one::<S>().plus(one()), one(), square);
    lemma_one(square);
    assert(square.times(three) == square.plus(square).plus(square));
    lemma_exchange_pairs(scale, root, scale, root);
    assert(square.times(three) == radius.times(radius));
}

/// The points of a hub and of a ball at rest lie on spheres of their radii.
pub proof fn lemma_rest_on_sphere<S: Scalar>()
    requires
        rooted::<S>(),
        S::fraction(3, 1) == one::<S>().plus(one()).plus(one()),
        S::fraction(3, 1) != zero::<S>(),
        zero::<S>().at_most(S::fraction(3, 1)),
    ensures
        ({
            let hub = hub_rest_points::<S>();
            let ball = ball_rest_points::<S>();
            let hub_square = S::single_fraction(75, 1000).times(S::single_fraction(75, 1000));
            let ball_square = S::single_fraction(34, 100).times(S::single_fraction(34, 100));
            &&& hub.p0.squared() == hub_square && hub.p1.squared() == hub_square
            &&& hub.p2.squared() == hub_square && hub.p3.squared() == hub_square
            &&& ball.p0.squared() == ball_square && ball.p1.squared() == ball_square
            &&& ball.p2.squared() == ball_square && ball.p3.squared() == ball_square
        }),
{
    lemma_corner_distance(hub_radius::<S>());
    lemma_corner_distance(ball_radius::<S>());
}

/// A rod at rest is as long as a spacing and 0.055 thick, to both sides alike: its first two
/// points are at one end, the others at the other, on alternate edges.
pub proof fn lemma_rod_at_rest<S: Scalar>()
    requires
        exact::<S>(),
    ensures
        ({
            let rest = rod_rest_points::<S>();
            let length = S::fraction(55, 100);
            let thickness = S::single_fraction(55, 1000);
            &&& rod_radius::<S>().plus(rod_radius()) == thickness
            &&& rest.p2.minus(rest.p0) == (Vec3 { x: length, y: zero(), z: thickness })
            &&& rest.p3.minus(rest.p1) == (Vec3 { x: length, y: zero(), z: thickness.negated() })
            &&& rest.p1.minus(rest.p0) == (Vec3 { x: zero(), y: thickness, z: thickness })
            &&& rest.p0.plus(rest.p3) == (Vec3 { x: zero(), y: zero(), z: thickness.negated() })
        }),
{
    let (a, b) = (rod_half_length::<S>(), rod_radius::<S>());
    lemma_parts(grid_spacing::<S>());
    lemma_parts(rod_thickness::<S>());
    lemma_difference(a, a.negated());
    lemma_difference(b, b.negated());
    lemma_difference(b.negated(), b.negated());
    lemma_difference(a.negated(), a.negated());
    lemma_difference(b, b);
    lemma_difference(b.negated(), b);
    lemma_negation(a, a);
    lemma_negation(b, b);
    lemma_zero(a);
    lemma_zero(b);
    lemma_commute(a.negated(), a);
    lemma_commute(b.negated(), b);
}

/// The shape projection of a round treats every body by its kind: hubs and balls by their
/// centres, rods by their rotations.
pub proof fn lemma_shapes_by_kind<S: Scalar>(
    setup: Setup<S>,
    motion: Motion<S>,
    variant: Variant,
    body: int,
)
    requires
        setup.well_formed(),
        motion.well_formed(setup),
        0 <= body < motion.bodies.len(),
    ensures
        ({
            let before = motion.bodies[body];
            let after = shaped(setup, motion, variant).bodies[body];
            match before.kind {
                BodyKind::Hub { .. } => after == before.hub_projected(),
                BodyKind::Rod => after == before.rod_projected(
                    variant.polar_iterations,
                    variant.division_free_final,
                    variant.fused_geometry,
                ),
                BodyKind::Ball => after == before.ball_projected(),
            }
        }),
        standard_variant() == (Variant {
            polar_iterations: 2,
            division_free_final: true,
            fused_geometry: true,
        }),
{
    let n = setup.grid_size as int;
    lemma_counts(n);
    assert((motion.bodies[body].kind, motion.bodies[body].fixed) == layout(
        setup.scene,
        n,
        body,
    ));
}

} // verus!
