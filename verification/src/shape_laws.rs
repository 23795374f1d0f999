//! What the gradient of a rod is in exact arithmetic, and variants of the shape projection that
//! come to the same there.

use crate::body::{
    centroid, inverse_four_half_length, inverse_four_radius, rod_center_and_deformation_gradient,
    rod_deformation_gradient, rod_half_length, rod_radius, rod_rest_points, AffineBody,
    ControlPoints,
};
use crate::constants::{affine_stiffness, grid_spacing, rod_thickness, COROTATED_ITERATIONS};
use crate::field::{
    exact, lemma_associate, lemma_commute, lemma_difference, lemma_difference_of_sums,
    lemma_distribute, lemma_distribute_left, lemma_exchange, lemma_exchange_factors,
    lemma_negated_product, lemma_negation, lemma_one, lemma_parts, lemma_product_associate,
    lemma_product_commute, lemma_quotient, lemma_take_nothing, lemma_undo, lemma_zero,
};
use crate::order::lemma_turn_difference;
use crate::scalar::{half, one, quarter, zero, Scalar};
use crate::shapes::{bodies_shape_projected, body_shape_projected};
use crate::simulation::{
    begun, contacted, jointed, projected, shaped, stepped, Motion, Setup, Variant,
};
use crate::vector::{Mat3, Vec3};
use vstd::prelude::*;

verus! {

/// One coordinate of the sums that the two ways of finding a rod's gradient take.
proof fn lemma_fused_coordinate<S: Scalar>(a: S, b: S, c: S, d: S)
    requires
        exact::<S>(),
    ensures
        a.plus(b).plus(c.plus(d)) == a.plus(b).plus(c).plus(d),
        c.plus(d).minus(a.plus(b)) == a.negated().minus(b).plus(c).plus(d),
        b.minus(a).plus(d.minus(c)) == a.negated().plus(b).minus(c).plus(d),
        b.minus(a).minus(d.minus(c)) == a.negated().plus(b).plus(c).minus(d),
{
    let (na, nb, nc, nd) = (a.negated(), b.negated(), c.negated(), d.negated());
    lemma_associate(a.plus(b), c, d);
    lemma_difference(c.plus(d), a.plus(b));
    lemma_negation(a, b);
    lemma_commute(c.plus(d), na.plus(nb));
    lemma_difference(na, b);
    lemma_associate(na.plus(nb), c, d);
    lemma_difference(b, a);
    lemma_commute(b, na);
    lemma_difference(d, c);
    lemma_commute(d, nc);
    lemma_difference(na.plus(b), c);
    lemma_associate(na.plus(b), nc, d);
    lemma_difference(na.plus(b), d.minus(c));
    lemma_negation(nc, d);
    lemma_negation(c, c);
    lemma_associate(na.plus(b), c, nd);
    lemma_difference(na.plus(b).plus(c), d);
}

/// The centre and the gradient of a rod are the same whether they share their sums or not.
pub proof fn lemma_fused_geometry<S: Scalar>(points: ControlPoints<S>)
    requires
        exact::<S>(),
    ensures
        rod_center_and_deformation_gradient(points) == (
            centroid(points),
            rod_deformation_gradient(points),
        ),
{
    lemma_fused_coordinate(points.p0.x, points.p1.x, points.p2.x, points.p3.x);
    lemma_fused_coordinate(points.p0.y, points.p1.y, points.p2.y, points.p3.y);
    lemma_fused_coordinate(points.p0.z, points.p1.z, points.p2.z, points.p3.z);
}

proof fn lemma_fused_rounds<S: Scalar>(
    setup: Setup<S>,
    motion: Motion<S>,
    variant: Variant,
    rounds: nat,
)
    requires
        exact::<S>(),
    ensures
        projected(setup, motion, Variant { fused_geometry: true, ..variant }, rounds) == projected(
            setup,
            motion,
            Variant { fused_geometry: false, ..variant },
            rounds,
        ),
    decreases rounds,
{
    if rounds > 0 {
        let n = setup.grid_size as int;
        let iterations = variant.polar_iterations;
        let division_free = variant.division_free_final;
        let fused = Variant { fused_geometry: true, ..variant };
        let unfused = Variant { fused_geometry: false, ..variant };
        assert(bodies_shape_projected(motion.bodies, n, iterations, division_free, true)
            =~= bodies_shape_projected(motion.bodies, n, iterations, division_free, false)) by {
            assert forall|i: int| 0 <= i < motion.bodies.len() implies body_shape_projected(
                motion.bodies[i],
                i,
                n,
                iterations,
                division_free,
                true,
            ) == #[trigger] body_shape_projected(
                motion.bodies[i],
                i,
                n,
                iterations,
                division_free,
                false,
            ) by {
                lemma_fused_geometry(motion.bodies[i].positions);
            }
        }
        assert(shaped(setup, motion, fused) == shaped(setup, motion, unfused));
        lemma_fused_rounds(
            setup,
            contacted(setup, jointed(setup, shaped(setup, motion, fused))),
            variant,
            (rounds - 1) as nat,
        );
    }
}

/// A step is the same whether the centres and gradients of rods share their sums or not.
pub proof fn lemma_fused_step<S: Scalar>(
    setup: Setup<S>,
    motion: Motion<S>,
    dt: S,
    variant: Variant,
)
    requires
        exact::<S>(),
    ensures
        stepped(setup, motion, dt, Variant { fused_geometry: true, ..variant }) == stepped(
            setup,
            motion,
            dt,
            Variant { fused_geometry: false, ..variant },
        ),
{
    lemma_fused_rounds(setup, begun(setup, motion, dt), variant, COROTATED_ITERATIONS as nat);
}

/// A matrix applied to a vector.
pub open spec fn turned_by<S: Scalar>(matrix: Mat3<S>, vector: Vec3<S>) -> Vec3<S> {
    matrix.x_axis.scaled(vector.x).plus(matrix.y_axis.scaled(vector.y)).plus(
        matrix.z_axis.scaled(vector.z),
    )
}

/// A point between its prediction and its place in the rigid shape, by inertia and stiffness.
pub open spec fn drawn_point<S: Scalar>(body: AffineBody<S>, predicted: Vec3<S>, target: Vec3<S>) -> Vec3<
    S,
> {
    predicted.scaled(body.inertia).plus(target.scaled(affine_stiffness())).scaled(
        body.inverse_diagonal,
    )
}

/// One coordinate of a point drawn towards a rigid rod.
proof fn lemma_drawn_coordinate<S: Scalar>(predicted: S, target: S, inertia: S, inverse: S)
    requires
        exact::<S>(),
    ensures
        predicted.times(inertia.times(inverse)).plus(
            target.times(affine_stiffness::<S>().times(inverse)),
        ) == predicted.times(inertia).plus(target.times(affine_stiffness())).times(inverse),
{
    lemma_distribute(predicted.times(inertia), target.times(affine_stiffness()), inverse);
    lemma_product_associate(predicted, inertia, inverse);
    lemma_product_associate(target, affine_stiffness(), inverse);
}

proof fn lemma_drawn_point<S: Scalar>(body: AffineBody<S>, predicted: Vec3<S>, target: Vec3<S>)
    requires
        exact::<S>(),
    ensures
        predicted.scaled(body.prediction_weight()).plus(target.scaled(body.shape_weight()))
            == drawn_point(body, predicted, target),
{
    lemma_drawn_coordinate(predicted.x, target.x, body.inertia, body.inverse_diagonal);
    lemma_drawn_coordinate(predicted.y, target.y, body.inertia, body.inverse_diagonal);
    lemma_drawn_coordinate(predicted.z, target.z, body.inertia, body.inverse_diagonal);
}

/// One coordinate of where the corners of a turned rod lie.
proof fn lemma_corner_coordinate<S: Scalar>(x: S, y: S, z: S, length: S, radius: S)
    requires
        exact::<S>(),
    ensures
        ({
            let (a, b, c) = (x.times(length), y.times(radius), z.times(radius));
            let (na, nb, nc) = (
                x.times(length.negated()),
                y.times(radius.negated()),
                z.times(radius.negated()),
            );
            &&& a.negated().minus(b).minus(c) == na.plus(nb).plus(nc)
            &&& a.negated().plus(b).plus(c) == na.plus(b).plus(c)
            &&& a.minus(b).plus(c) == a.plus(nb).plus(c)
            &&& a.plus(b).minus(c) == a.plus(b).plus(nc)
        }),
{
    let (a, b, c) = (x.times(length), y.times(radius), z.times(radius));
    lemma_negated_product(x, length);
    lemma_negated_product(y, radius);
    lemma_negated_product(z, radius);
    lemma_difference(a.negated(), b);
    lemma_difference(a.negated().minus(b), c);
    lemma_difference(a, b);
    lemma_difference(a.plus(b), c);
}

/// A rod is drawn point by point towards its rest shape, turned and put about its centre.
pub proof fn lemma_rod_shape_points<S: Scalar>(
    body: AffineBody<S>,
    center: Vec3<S>,
    rotation: Mat3<S>,
)
    requires
        exact::<S>(),
    ensures
        ({
            let rest = rod_rest_points::<S>();
            let predicted = body.predicted_positions;
            body.with_rod_shape(
                center,
                rotation,
                body.prediction_weight(),
                body.shape_weight(),
            ).positions == (ControlPoints {
                p0: drawn_point(
                    body,
                    predicted.p0,
                    center.plus(turned_by(rotation, rest.p0)),
                ),
                p1: drawn_point(
                    body,
                    predicted.p1,
                    center.plus(turned_by(rotation, rest.p1)),
                ),
                p2: drawn_point(
                    body,
                    predicted.p2,
                    center.plus(turned_by(rotation, rest.p2)),
                ),
                p3: drawn_point(
                    body,
                    predicted.p3,
                    center.plus(turned_by(rotation, rest.p3)),
                ),
            })
        }),
{
    let rest = rod_rest_points::<S>();
    let predicted = body.predicted_positions;
    let (x, y, z) = (rotation.x_axis, rotation.y_axis, rotation.z_axis);
    let (length, radius) = (rod_half_length::<S>(), rod_radius::<S>());
    lemma_corner_coordinate(x.x, y.x, z.x, length, radius);
    lemma_corner_coordinate(x.y, y.y, z.y, length, radius);
    lemma_corner_coordinate(x.z, y.z, z.z, length, radius);
    lemma_drawn_point(body, predicted.p0, center.plus(turned_by(rotation, rest.p0)));
    lemma_drawn_point(body, predicted.p1, center.plus(turned_by(rotation, rest.p1)));
    lemma_drawn_point(body, predicted.p2, center.plus(turned_by(rotation, rest.p2)));
    lemma_drawn_point(body, predicted.p3, center.plus(turned_by(rotation, rest.p3)));
}

/// A sum and a difference of two numbers, added and taken from each other.
pub proof fn lemma_sum_and_difference<S: Scalar>(u: S, v: S)
    requires
        exact::<S>(),
    ensures
        u.plus(v).plus(u.minus(v)) == u.plus(u),
        u.plus(v).minus(u.minus(v)) == v.plus(v),
        u.plus(v).minus(v.minus(u)) == u.plus(u),
        u.plus(v).plus(v.minus(u)) == v.plus(v),
{
    lemma_difference(u, v);
    lemma_difference(v, u);
    lemma_exchange(u, v, u, v.negated());
    lemma_zero(v);
    lemma_take_nothing(u.plus(u));
    lemma_commute(u, v);
    lemma_exchange(v, u, v, u.negated());
    lemma_zero(u);
    lemma_take_nothing(v.plus(v));
    lemma_difference(u.plus(v), u.minus(v));
    lemma_difference(u.plus(v), v.minus(u));
    lemma_turn_difference(u, v);
    lemma_turn_difference(v, u);
}

/// Four quarters of a number, by way of its double.
proof fn lemma_four_quarters<S: Scalar>(a: S)
    requires
        exact::<S>(),
    ensures
        a.plus(a).plus(a.plus(a)).times(quarter()) == a,
{
    let q = a.times(quarter());
    lemma_distribute(a.plus(a), a.plus(a), quarter());
    lemma_distribute(a, a, quarter());
    lemma_associate(q.plus(q), q, q);
    lemma_parts(a);
}

/// A number is a quarter where four of it make one.
pub proof fn lemma_is_quarter<S: Scalar>(k: S)
    requires
        exact::<S>(),
        k.plus(k).plus(k.plus(k)) == one::<S>(),
    ensures
        k == quarter::<S>(),
{
    lemma_four_quarters(k);
    lemma_one(quarter::<S>());
}

/// One over twice a length, times half of it, is a quarter.
proof fn lemma_quarter_of<S: Scalar>(length: S)
    requires
        exact::<S>(),
        S::fraction(2, 1) == one::<S>().plus(one()),
        length != zero::<S>(),
    ensures
        one::<S>().over(S::fraction(2, 1).times(length)).times(length.times(half()))
            == quarter::<S>(),
        length.times(half()).times(one::<S>().over(S::fraction(2, 1).times(length)))
            == quarter::<S>(),
{
    let twice = S::fraction(2, 1).times(length);
    lemma_distribute(one(), one(), length);
    lemma_one(length);
    assert(twice == length.plus(length));
    if twice == zero::<S>() {
        lemma_distribute(length, length, half());
        lemma_parts(length);
        lemma_zero(half::<S>());
    }
    let inverse = one::<S>().over(twice);
    lemma_quotient(one(), twice);
    let m = length.times(inverse);
    lemma_distribute(length, length, inverse);
    lemma_product_commute(twice, inverse);
    assert(m.plus(m) == one::<S>());
    let k = m.times(half());
    lemma_parts(m);
    lemma_is_quarter(k);
    lemma_exchange_factors(length, inverse, half());
    lemma_product_commute(inverse, length.times(half()));
}

/// Whether two is one and one, and rods have a length and a thickness.
pub open spec fn rods_have_size<S: Scalar>() -> bool {
    &&& S::fraction(2, 1) == one::<S>().plus(one())
    &&& grid_spacing::<S>() != zero::<S>()
    &&& rod_thickness::<S>() != zero::<S>()
}

/// A rod whose rest shape went through a matrix and was put about a centre.
pub open spec fn affine_image<S: Scalar>(
    center: Vec3<S>,
    matrix: Mat3<S>,
    rest: ControlPoints<S>,
) -> ControlPoints<S> {
    ControlPoints {
        p0: center.plus(turned_by(matrix, rest.p0)),
        p1: center.plus(turned_by(matrix, rest.p1)),
        p2: center.plus(turned_by(matrix, rest.p2)),
        p3: center.plus(turned_by(matrix, rest.p3)),
    }
}

/// One coordinate of the image of a rod, sum by sum and difference by difference.
proof fn lemma_image_sums<S: Scalar>(c: S, u: S, v: S, w: S)
    requires
        exact::<S>(),
    ensures
        ({
            let p0 = c.plus(u.negated().plus(v.negated()).plus(w.negated()));
            let p1 = c.plus(u.negated().plus(v).plus(w));
            let p2 = c.plus(u.plus(v.negated()).plus(w));
            let p3 = c.plus(u.plus(v).plus(w.negated()));
            &&& p0.plus(p1).plus(p2.plus(p3)) == c.plus(c).plus(c.plus(c))
            &&& p2.plus(p3).minus(p0.plus(p1)) == u.plus(u).plus(u.plus(u))
            &&& p1.minus(p0).plus(p3.minus(p2)) == v.plus(v).plus(v.plus(v))
            &&& p1.minus(p0).minus(p3.minus(p2)) == w.plus(w).plus(w.plus(w))
        }),
{
    let (k, l) = (c.plus(u.negated()), c.plus(u));
    let (g, h) = (v.plus(w), v.minus(w));
    let p0 = c.plus(u.negated().plus(v.negated()).plus(w.negated()));
    let p1 = c.plus(u.negated().plus(v).plus(w));
    let p2 = c.plus(u.plus(v.negated()).plus(w));
    let p3 = c.plus(u.plus(v).plus(w.negated()));
    lemma_negation(v, w);
    lemma_difference(v, w);
    lemma_negation(v, w.negated());
    lemma_negation(w, w);
    lemma_associate(u.negated(), v.negated(), w.negated());
    lemma_associate(u.negated(), v, w);
    lemma_associate(u, v.negated(), w);
    lemma_associate(u, v, w.negated());
    lemma_associate(c, u.negated(), g.negated());
    lemma_associate(c, u.negated(), g);
    lemma_associate(c, u, h.negated());
    lemma_associate(c, u, h);
    lemma_about_middle(k, g);
    lemma_about_middle(l, h);
    assert(p0 == k.plus(g.negated()) && p1 == k.plus(g));
    assert(p2 == l.plus(h.negated()) && p3 == l.plus(h));
    lemma_sum_and_difference(c, u);
    lemma_difference(c, u);
    lemma_exchange(k, k, l, l);
    lemma_commute(k, l);
    lemma_difference_of_sums(l, l, k, k);
    lemma_sum_and_difference(v, w);
    lemma_exchange(g, g, h, h);
    lemma_difference_of_sums(g, g, h, h);
}

/// The sum and the difference of two numbers about a middle.
proof fn lemma_about_middle<S: Scalar>(middle: S, step: S)
    requires
        exact::<S>(),
    ensures
        middle.plus(step.negated()).plus(middle.plus(step)) == middle.plus(middle),
        middle.plus(step).minus(middle.plus(step.negated())) == step.plus(step),
{
    lemma_difference(middle, step);
    lemma_sum_and_difference(middle, step);
    lemma_commute(middle.minus(step), middle.plus(step));
}

/// One coordinate of a column of the gradient of an image.
proof fn lemma_column_coordinate<S: Scalar>(m: S, length: S, inverse: S)
    requires
        exact::<S>(),
        length.times(inverse) == quarter::<S>(),
    ensures
        ({
            let u = m.times(length);
            u.plus(u).plus(u.plus(u)).times(inverse) == m
        }),
{
    let u = m.times(length);
    lemma_distribute(u.plus(u), u.plus(u), inverse);
    lemma_distribute(u, u, inverse);
    lemma_product_associate(m, length, inverse);
    let q = m.times(quarter());
    lemma_associate(q.plus(q), q, q);
    lemma_parts(m);
}

/// One coordinate of the centre and of the gradient of an image.
proof fn lemma_image_coordinate<S: Scalar>(c: S, x: S, y: S, z: S)
    requires
        exact::<S>(),
        rods_have_size::<S>(),
    ensures
        ({
            let (length, radius) = (rod_half_length::<S>(), rod_radius::<S>());
            let (l, r) = (length.negated(), radius.negated());
            let p0 = c.plus(x.times(l).plus(y.times(r)).plus(z.times(r)));
            let p1 = c.plus(x.times(l).plus(y.times(radius)).plus(z.times(radius)));
            let p2 = c.plus(x.times(length).plus(y.times(r)).plus(z.times(radius)));
            let p3 = c.plus(x.times(length).plus(y.times(radius)).plus(z.times(r)));
            &&& p0.plus(p1).plus(p2.plus(p3)).times(quarter()) == c
            &&& p2.plus(p3).minus(p0.plus(p1)).times(inverse_four_half_length()) == x
            &&& p1.minus(p0).plus(p3.minus(p2)).times(inverse_four_radius()) == y
            &&& p1.minus(p0).minus(p3.minus(p2)).times(inverse_four_radius()) == z
        }),
{
    let (length, radius) = (rod_half_length::<S>(), rod_radius::<S>());
    lemma_quarter_of(grid_spacing::<S>());
    lemma_quarter_of(rod_thickness::<S>());
    lemma_negated_product(x, length);
    lemma_negated_product(y, radius);
    lemma_negated_product(z, radius);
    lemma_image_sums(c, x.times(length), y.times(radius), z.times(radius));
    lemma_four_quarters(c);
    lemma_column_coordinate(x, length, inverse_four_half_length());
    lemma_column_coordinate(y, radius, inverse_four_radius());
    lemma_column_coordinate(z, radius, inverse_four_radius());
}

/// In exact arithmetic the gradient of a rod whose rest shape went through a matrix is that
/// matrix, and its centre is what it was put about.
pub proof fn lemma_gradient_of_image<S: Scalar>(center: Vec3<S>, matrix: Mat3<S>)
    requires
        exact::<S>(),
        rods_have_size::<S>(),
    ensures
        ({
            let points = affine_image(center, matrix, rod_rest_points());
            &&& rod_deformation_gradient(points) == matrix
            &&& rod_center_and_deformation_gradient(points) == (center, matrix)
            &&& centroid(points) == center
        }),
{
    let (x, y, z) = (matrix.x_axis, matrix.y_axis, matrix.z_axis);
    lemma_fused_geometry(affine_image(center, matrix, rod_rest_points()));
    lemma_image_coordinate(center.x, x.x, y.x, z.x);
    lemma_image_coordinate(center.y, x.y, y.y, z.y);
    lemma_image_coordinate(center.z, x.z, y.z, z.z);
}

/// A corner from its sums and differences: four of it, then a quarter.
proof fn lemma_corners_back<S: Scalar>(a: S, b: S, c: S, d: S)
    requires
        exact::<S>(),
    ensures
        ({
            let sum = a.plus(b).plus(c.plus(d));
            let x = c.plus(d).minus(a.plus(b));
            let y = b.minus(a).plus(d.minus(c));
            let z = b.minus(a).minus(d.minus(c));
            &&& sum.plus(x.negated().plus(y.negated()).plus(z.negated())) == a.plus(a).plus(
                a.plus(a),
            )
            &&& sum.plus(x.negated().plus(y).plus(z)) == b.plus(b).plus(b.plus(b))
            &&& sum.plus(x.plus(y.negated()).plus(z)) == c.plus(c).plus(c.plus(c))
            &&& sum.plus(x.plus(y).plus(z.negated())) == d.plus(d).plus(d.plus(d))
        }),
{
    let (s, t) = (a.plus(b), c.plus(d));
    let (e, f) = (b.minus(a), d.minus(c));
    let (sum, x, y, z) = (s.plus(t), t.minus(s), e.plus(f), e.minus(f));
    lemma_sum_and_difference(s, t);
    lemma_sum_and_difference(e, f);
    lemma_sum_and_difference(a, b);
    lemma_sum_and_difference(c, d);
    lemma_difference(sum, x);
    lemma_difference(y, z);
    lemma_negation(y, z);
    lemma_negation(y, z.negated());
    lemma_negation(z, z);
    lemma_negation(e, e);
    lemma_negation(f, f);
    lemma_associate(x.negated(), y.negated(), z.negated());
    lemma_associate(x.negated(), y, z);
    lemma_associate(x, y.negated(), z);
    lemma_associate(x, y, z.negated());
    lemma_associate(sum, x.negated(), y.plus(z).negated());
    lemma_associate(sum, x.negated(), y.plus(z));
    lemma_associate(sum, x, y.minus(z).negated());
    lemma_associate(sum, x, y.minus(z));
    lemma_exchange(s, s, e.negated(), e.negated());
    lemma_difference(s, e);
    lemma_exchange(s, s, e, e);
    lemma_exchange(t, t, f.negated(), f.negated());
    lemma_difference(t, f);
    lemma_exchange(t, t, f, f);
}

/// One coordinate of a corner of a rod, from the centre and the gradient.
proof fn lemma_corner_from_gradient<S: Scalar>(sum: S, x: S, y: S, z: S)
    requires
        exact::<S>(),
        rods_have_size::<S>(),
    ensures
        ({
            let (i, j) = (inverse_four_half_length::<S>(), inverse_four_radius::<S>());
            let (length, radius) = (rod_half_length::<S>(), rod_radius::<S>());
            let (l, r) = (length.negated(), radius.negated());
            let c = sum.times(quarter());
            let (u, v, w) = (x.times(i), y.times(j), z.times(j));
            &&& c.plus(u.times(l).plus(v.times(r)).plus(w.times(r))) == sum.plus(
                x.negated().plus(y.negated()).plus(z.negated()),
            ).times(quarter())
            &&& c.plus(u.times(l).plus(v.times(radius)).plus(w.times(radius))) == sum.plus(
                x.negated().plus(y).plus(z),
            ).times(quarter())
            &&& c.plus(u.times(length).plus(v.times(r)).plus(w.times(radius))) == sum.plus(
                x.plus(y.negated()).plus(z),
            ).times(quarter())
            &&& c.plus(u.times(length).plus(v.times(radius)).plus(w.times(r))) == sum.plus(
                x.plus(y).plus(z.negated()),
            ).times(quarter())
        }),
{
    lemma_quarter_of(grid_spacing::<S>());
    lemma_quarter_of(rod_thickness::<S>());
    lemma_step_of(x, inverse_four_half_length(), rod_half_length());
    lemma_step_of(y, inverse_four_radius(), rod_radius());
    lemma_step_of(z, inverse_four_radius(), rod_radius());
    lemma_quartered(sum, x.negated(), y.negated(), z.negated());
    lemma_quartered(sum, x.negated(), y, z);
    lemma_quartered(sum, x, y.negated(), z);
    lemma_quartered(sum, x, y, z.negated());
}

proof fn lemma_step_of<S: Scalar>(x: S, inverse: S, length: S)
    requires
        exact::<S>(),
        inverse.times(length) == quarter::<S>(),
    ensures
        x.times(inverse).times(length) == x.times(quarter()),
        x.times(inverse).times(length.negated()) == x.negated().times(quarter()),
{
    lemma_product_associate(x, inverse, length);
    lemma_negated_product(x.times(inverse), length);
    lemma_negated_product(x, quarter());
}

proof fn lemma_quartered<S: Scalar>(sum: S, x: S, y: S, z: S)
    requires
        exact::<S>(),
    ensures
        sum.times(quarter()).plus(
            x.times(quarter()).plus(y.times(quarter())).plus(z.times(quarter())),
        ) == sum.plus(x.plus(y).plus(z)).times(quarter()),
{
    lemma_distribute(x, y, quarter());
    lemma_distribute(x.plus(y), z, quarter());
    lemma_distribute(sum, x.plus(y).plus(z), quarter());
}

/// One coordinate of all corners of a rod.
proof fn lemma_image_back_coordinate<S: Scalar>(a: S, b: S, c: S, d: S)
    requires
        exact::<S>(),
        rods_have_size::<S>(),
    ensures
        ({
            let (length, radius) = (rod_half_length::<S>(), rod_radius::<S>());
            let (l, r) = (length.negated(), radius.negated());
            let center = a.plus(b).plus(c.plus(d)).times(quarter());
            let u = c.plus(d).minus(a.plus(b)).times(inverse_four_half_length());
            let v = b.minus(a).plus(d.minus(c)).times(inverse_four_radius());
            let w = b.minus(a).minus(d.minus(c)).times(inverse_four_radius());
            &&& center.plus(u.times(l).plus(v.times(r)).plus(w.times(r))) == a
            &&& center.plus(u.times(l).plus(v.times(radius)).plus(w.times(radius))) == b
            &&& center.plus(u.times(length).plus(v.times(r)).plus(w.times(radius))) == c
            &&& center.plus(u.times(length).plus(v.times(radius)).plus(w.times(r))) == d
        }),
{
    lemma_corners_back(a, b, c, d);
    lemma_corner_from_gradient(
        a.plus(b).plus(c.plus(d)),
        c.plus(d).minus(a.plus(b)),
        b.minus(a).plus(d.minus(c)),
        b.minus(a).minus(d.minus(c)),
    );
    lemma_four_quarters(a);
    lemma_four_quarters(b);
    lemma_four_quarters(c);
    lemma_four_quarters(d);
}

/// In exact arithmetic the gradient of a rod is the affine map from its rest shape to its
/// points, wherever they are: put about the centre, it gives them back.
pub proof fn lemma_gradient_gives_points<S: Scalar>(points: ControlPoints<S>)
    requires
        exact::<S>(),
        rods_have_size::<S>(),
    ensures
        affine_image(
            centroid(points),
            rod_deformation_gradient(points),
            rod_rest_points(),
        ) == points,
{
    lemma_fused_geometry(points);
    lemma_image_back_coordinate(points.p0.x, points.p1.x, points.p2.x, points.p3.x);
    lemma_image_back_coordinate(points.p0.y, points.p1.y, points.p2.y, points.p3.y);
    lemma_image_back_coordinate(points.p0.z, points.p1.z, points.p2.z, points.p3.z);
}

/// The sum of four vectors, each scaled by its own factor, from zero on.
pub open spec fn weighted_sum<S: Scalar>(
    vectors: ControlPoints<S>,
    factors: (S, S, S, S),
) -> Vec3<S> {
    Vec3::<S>::origin().plus(vectors.p0.scaled(factors.0)).plus(
        vectors.p1.scaled(factors.1),
    ).plus(vectors.p2.scaled(factors.2)).plus(vectors.p3.scaled(factors.3))
}

/// The covariance of offsets with rest points: for each axis, the offsets weighted by the rest
/// points' coordinates along it.
pub open spec fn covariance<S: Scalar>(
    offsets: ControlPoints<S>,
    rest: ControlPoints<S>,
) -> Mat3<S> {
    Mat3 {
        x_axis: weighted_sum(offsets, (rest.p0.x, rest.p1.x, rest.p2.x, rest.p3.x)),
        y_axis: weighted_sum(offsets, (rest.p0.y, rest.p1.y, rest.p2.y, rest.p3.y)),
        z_axis: weighted_sum(offsets, (rest.p0.z, rest.p1.z, rest.p2.z, rest.p3.z)),
    }
}

/// One matrix after another.
pub open spec fn product_of<S: Scalar>(first: Mat3<S>, second: Mat3<S>) -> Mat3<S> {
    Mat3 {
        x_axis: turned_by(first, second.x_axis),
        y_axis: turned_by(first, second.y_axis),
        z_axis: turned_by(first, second.z_axis),
    }
}

/// One coordinate of a matrix applied to a sum, and to a scaled vector.
proof fn lemma_linear_coordinate<S: Scalar>(m: (S, S, S), u: (S, S, S), v: (S, S, S), factor: S)
    requires
        exact::<S>(),
    ensures
        m.0.times(u.0.plus(v.0)).plus(m.1.times(u.1.plus(v.1))).plus(m.2.times(u.2.plus(v.2)))
            == m.0.times(u.0).plus(m.1.times(u.1)).plus(m.2.times(u.2)).plus(
            m.0.times(v.0).plus(m.1.times(v.1)).plus(m.2.times(v.2)),
        ),
        m.0.times(u.0.times(factor)).plus(m.1.times(u.1.times(factor))).plus(
            m.2.times(u.2.times(factor)),
        ) == m.0.times(u.0).plus(m.1.times(u.1)).plus(m.2.times(u.2)).times(factor),
{
    lemma_distribute_left(u.0, v.0, m.0);
    lemma_distribute_left(u.1, v.1, m.1);
    lemma_distribute_left(u.2, v.2, m.2);
    let (a, b, c) = (m.0.times(u.0), m.1.times(u.1), m.2.times(u.2));
    let (d, e, f) = (m.0.times(v.0), m.1.times(v.1), m.2.times(v.2));
    lemma_exchange(a, d, b, e);
    lemma_exchange(a.plus(b), d.plus(e), c, f);
    lemma_product_associate(m.0, u.0, factor);
    lemma_product_associate(m.1, u.1, factor);
    lemma_product_associate(m.2, u.2, factor);
    lemma_distribute(a, b, factor);
    lemma_distribute(a.plus(b), c, factor);
}

/// A matrix takes sums to sums and scaled vectors to scaled vectors.
proof fn lemma_matrix_linear<S: Scalar>(matrix: Mat3<S>, u: Vec3<S>, v: Vec3<S>, factor: S)
    requires
        exact::<S>(),
    ensures
        turned_by(matrix, u.plus(v)) == turned_by(matrix, u).plus(turned_by(matrix, v)),
        turned_by(matrix, u.scaled(factor)) == turned_by(matrix, u).scaled(factor),
{
    let (x, y, z) = (matrix.x_axis, matrix.y_axis, matrix.z_axis);
    let (a, b) = ((u.x, u.y, u.z), (v.x, v.y, v.z));
    lemma_linear_coordinate((x.x, y.x, z.x), a, b, factor);
    lemma_linear_coordinate((x.y, y.y, z.y), a, b, factor);
    lemma_linear_coordinate((x.z, y.z, z.z), a, b, factor);
}

proof fn lemma_matrix_at_origin<S: Scalar>(matrix: Mat3<S>)
    requires
        exact::<S>(),
    ensures
        turned_by(matrix, Vec3::origin()) == Vec3::<S>::origin(),
{
    let (x, y, z) = (matrix.x_axis, matrix.y_axis, matrix.z_axis);
    lemma_zero(x.x);
    lemma_zero(x.y);
    lemma_zero(x.z);
    lemma_zero(y.x);
    lemma_zero(y.y);
    lemma_zero(y.z);
    lemma_zero(z.x);
    lemma_zero(z.y);
    lemma_zero(z.z);
    lemma_take_nothing(zero::<S>());
}

/// A matrix applied to a weighted sum is the weighted sum of what it makes of the vectors.
proof fn lemma_matrix_of_sum<S: Scalar>(
    matrix: Mat3<S>,
    vectors: ControlPoints<S>,
    images: ControlPoints<S>,
    factors: (S, S, S, S),
)
    requires
        exact::<S>(),
        images.p0 == turned_by(matrix, vectors.p0),
        images.p1 == turned_by(matrix, vectors.p1),
        images.p2 == turned_by(matrix, vectors.p2),
        images.p3 == turned_by(matrix, vectors.p3),
    ensures
        weighted_sum(images, factors) == turned_by(matrix, weighted_sum(vectors, factors)),
{
    let a = vectors.p0.scaled(factors.0);
    let b = vectors.p1.scaled(factors.1);
    let c = vectors.p2.scaled(factors.2);
    let d = vectors.p3.scaled(factors.3);
    let start = Vec3::<S>::origin();
    lemma_matrix_at_origin(matrix);
    lemma_matrix_linear(matrix, vectors.p0, a, factors.0);
    lemma_matrix_linear(matrix, vectors.p1, a, factors.1);
    lemma_matrix_linear(matrix, vectors.p2, a, factors.2);
    lemma_matrix_linear(matrix, vectors.p3, a, factors.3);
    lemma_matrix_linear(matrix, start, a, zero());
    lemma_matrix_linear(matrix, start.plus(a), b, zero());
    lemma_matrix_linear(matrix, start.plus(a).plus(b), c, zero());
    lemma_matrix_linear(matrix, start.plus(a).plus(b).plus(c), d, zero());
}

/// In exact arithmetic the gradient of a rod, after the covariance of its rest shape with
/// itself, is the covariance of its points with its rest shape.
pub proof fn lemma_gradient_from_covariance<S: Scalar>(points: ControlPoints<S>)
    requires
        exact::<S>(),
        rods_have_size::<S>(),
    ensures
        ({
            let rest = rod_rest_points::<S>();
            let center = centroid(points);
            let offsets = ControlPoints {
                p0: points.p0.minus(center),
                p1: points.p1.minus(center),
                p2: points.p2.minus(center),
                p3: points.p3.minus(center),
            };
            covariance(offsets, rest) == product_of(
                rod_deformation_gradient(points),
                covariance(rest, rest),
            )
        }),
{
    let rest = rod_rest_points::<S>();
    let center = centroid(points);
    let gradient = rod_deformation_gradient(points);
    let offsets = ControlPoints {
        p0: points.p0.minus(center),
        p1: points.p1.minus(center),
        p2: points.p2.minus(center),
        p3: points.p3.minus(center),
    };
    lemma_gradient_gives_points(points);
    lemma_offset_back(center, turned_by(gradient, rest.p0));
    lemma_offset_back(center, turned_by(gradient, rest.p1));
    lemma_offset_back(center, turned_by(gradient, rest.p2));
    lemma_offset_back(center, turned_by(gradient, rest.p3));
    lemma_matrix_of_sum(gradient, rest, offsets, (rest.p0.x, rest.p1.x, rest.p2.x, rest.p3.x));
    lemma_matrix_of_sum(gradient, rest, offsets, (rest.p0.y, rest.p1.y, rest.p2.y, rest.p3.y));
    lemma_matrix_of_sum(gradient, rest, offsets, (rest.p0.z, rest.p1.z, rest.p2.z, rest.p3.z));
}

proof fn lemma_offset_back<S: Scalar>(center: Vec3<S>, offset: Vec3<S>)
    requires
        exact::<S>(),
    ensures
        center.plus(offset).minus(center) == offset,
{
    lemma_undo(offset.x, center.x);
    lemma_undo(offset.y, center.y);
    lemma_undo(offset.z, center.z);
}

} // verus!
