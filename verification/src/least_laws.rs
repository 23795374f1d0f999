//! In exact arithmetic the joint solve moves the bodies no more than it must: of all placements
//! that close the joints and leave the pinned bodies, it finds the closest.

use crate::attachment::point_of;
use crate::body::{weighted_point, AffineBody, ControlPoints, Weights};
use crate::constants::affine_stiffness;
use crate::dual::{
    accumulate_attachment, accumulated_force, body_with_multipliers, joint_force, no_force,
    retracted, scaled_points,
};
use crate::dual_laws::{
    divisible, lemma_dual_is_direct, lemma_generic_correction, lemma_joint_point_of,
};
use crate::dual_step::{dual_coefficients, multipliers};
use crate::exact::{joints_closed, lemma_joint_solve_closes};
use crate::field::{
    exact, lemma_commute, lemma_difference, lemma_difference_of_sums, lemma_distribute,
    lemma_distribute_difference, lemma_distribute_left, lemma_exchange, lemma_negated_product,
    lemma_negation, lemma_one, lemma_product_associate, lemma_product_commute, lemma_quotient,
    lemma_take_nothing, lemma_undo, lemma_zero,
};
use crate::gather::{joint_residual, joint_residuals};
use crate::grid::{hub_total, joint_hub, joint_total, lemma_counts, lemma_joint_is_neighbor};
use crate::joints::BallJoint;
use crate::laws::coefficients_of;
use crate::net::net_joint;
use crate::order::{lemma_compare, lemma_ordered_is_exact, lemma_part_of_sum, lemma_sign, ordered};
use crate::rotation_laws::{lemma_inner_negated, lemma_scaled_inner, lemma_squared};
use crate::scalar::{one, zero, Scalar};
use crate::shapes::{hub_centers, rod_endpoints};
use crate::simulation::{jointed, lemma_jointed, Motion, Setup};
use crate::vector::Vec3;
use vstd::prelude::*;

verus! {

/// The sum of the first `count` terms, from the left.
pub open spec fn total<S: Scalar>(term: spec_fn(int) -> S, count: int) -> S
    decreases count,
{
    if count <= 0 {
        zero()
    } else {
        total(term, count - 1).plus(term(count - 1))
    }
}

proof fn lemma_total_same<S: Scalar>(f: spec_fn(int) -> S, g: spec_fn(int) -> S, count: int)
    requires
        forall|i: int| 0 <= i < count ==> #[trigger] f(i) == g(i),
    ensures
        total(f, count) == total(g, count),
    decreases count,
{
    if count > 0 {
        lemma_total_same(f, g, count - 1);
        assert(f(count - 1) == g(count - 1));
    }
}

/// A sum of sums is the sum of the sums.
proof fn lemma_total_plus<S: Scalar>(
    f: spec_fn(int) -> S,
    g: spec_fn(int) -> S,
    h: spec_fn(int) -> S,
    count: int,
)
    requires
        exact::<S>(),
        forall|i: int| 0 <= i < count ==> #[trigger] h(i) == f(i).plus(g(i)),
    ensures
        total(h, count) == total(f, count).plus(total(g, count)),
    decreases count,
{
    if count > 0 {
        lemma_total_plus(f, g, h, count - 1);
        assert(h(count - 1) == f(count - 1).plus(g(count - 1)));
        lemma_exchange(
            total(f, count - 1),
            total(g, count - 1),
            f(count - 1),
            g(count - 1),
        );
    } else {
        lemma_take_nothing(zero::<S>());
    }
}

/// A sum of terms of which at most one is not zero is that term.
proof fn lemma_total_single<S: Scalar>(f: spec_fn(int) -> S, at: int, value: S, count: int)
    requires
        exact::<S>(),
        forall|i: int|
            0 <= i < count ==> #[trigger] f(i) == (if i == at {
                value
            } else {
                zero()
            }),
    ensures
        total(f, count) == (if 0 <= at < count {
            value
        } else {
            zero()
        }),
    decreases count,
{
    if count > 0 {
        lemma_total_single(f, at, value, count - 1);
        assert(f(count - 1) == (if count - 1 == at {
            value
        } else {
            zero()
        }));
        lemma_take_nothing(value);
        lemma_take_nothing(zero::<S>());
    }
}

/// A sum of terms that are not negative is not negative.
proof fn lemma_total_sign<S: Scalar>(f: spec_fn(int) -> S, count: int)
    requires
        ordered::<S>(),
        forall|i: int| 0 <= i < count ==> zero::<S>().at_most(#[trigger] f(i)),
    ensures
        zero::<S>().at_most(total(f, count)),
    decreases count,
{
    if count > 0 {
        lemma_total_sign(f, count - 1);
        lemma_part_of_sum(total(f, count - 1), f(count - 1));
    } else {
        lemma_compare(zero::<S>(), zero());
    }
}

/// The inner product of sets of four points.
pub open spec fn points_inner<S: Scalar>(u: ControlPoints<S>, v: ControlPoints<S>) -> S {
    u.p0.inner(v.p0).plus(u.p1.inner(v.p1)).plus(u.p2.inner(v.p2)).plus(u.p3.inner(v.p3))
}

/// How far four points are from four others: the sum of the squares.
pub open spec fn separation<S: Scalar>(u: ControlPoints<S>, v: ControlPoints<S>) -> S {
    points_inner(retracted(u, v), retracted(u, v))
}

/// How much a body resists being moved.
pub open spec fn resistance<S: Scalar>(body: AffineBody<S>) -> S {
    body.inertia.plus(affine_stiffness())
}

/// How far a placement of bodies is from another: the squares of the ways of all points, each
/// weighted by how much its body resists.
pub open spec fn effort<S: Scalar>(
    bodies: Seq<AffineBody<S>>,
    from: Seq<AffineBody<S>>,
    to: Seq<AffineBody<S>>,
) -> S {
    total(
        |i: int| resistance(bodies[i]).times(separation(to[i].positions, from[i].positions)),
        bodies.len() as int,
    )
}

/// The inner product of a sum of vectors.
pub proof fn lemma_inner_plus<S: Scalar>(u: Vec3<S>, v: Vec3<S>, w: Vec3<S>)
    requires
        exact::<S>(),
    ensures
        u.plus(v).inner(w) == u.inner(w).plus(v.inner(w)),
        w.inner(u.plus(v)) == w.inner(u).plus(w.inner(v)),
{
    lemma_distribute(u.x, v.x, w.x);
    lemma_distribute(u.y, v.y, w.y);
    lemma_distribute(u.z, v.z, w.z);
    let (a, b, c) = (u.x.times(w.x), u.y.times(w.y), u.z.times(w.z));
    let (d, e, f) = (v.x.times(w.x), v.y.times(w.y), v.z.times(w.z));
    lemma_exchange(a, d, b, e);
    lemma_exchange(a.plus(b), d.plus(e), c, f);
    lemma_scaled_inner(w, u.plus(v), one());
    lemma_scaled_inner(w, u, one());
    lemma_scaled_inner(w, v, one());
}

/// The square of a sum of vectors.
pub proof fn lemma_square_of_sum<S: Scalar>(u: Vec3<S>, v: Vec3<S>)
    requires
        exact::<S>(),
    ensures
        u.plus(v).squared() == v.squared().plus(u.squared()).plus(v.inner(u).plus(v.inner(u))),
{
    let (a, b, c) = (u.squared(), v.squared(), v.inner(u));
    lemma_inner_plus(u, v, u.plus(v));
    lemma_inner_plus(u, v, u);
    lemma_inner_plus(u, v, v);
    lemma_scaled_inner(u, v, one());
    lemma_commute(a, c);
    lemma_exchange(c, a, c, b);
    lemma_commute(a, b);
    lemma_commute(c.plus(c), b.plus(a));
}

/// Four sums of two terms are two sums of four.
proof fn lemma_four_sums<S: Scalar>(a: (S, S, S, S), b: (S, S, S, S))
    requires
        exact::<S>(),
    ensures
        a.0.plus(b.0).plus(a.1.plus(b.1)).plus(a.2.plus(b.2)).plus(a.3.plus(b.3)) == a.0.plus(
            a.1,
        ).plus(a.2).plus(a.3).plus(b.0.plus(b.1).plus(b.2).plus(b.3)),
{
    lemma_exchange(a.0, b.0, a.1, b.1);
    lemma_exchange(a.0.plus(a.1), b.0.plus(b.1), a.2, b.2);
    lemma_exchange(a.0.plus(a.1).plus(a.2), b.0.plus(b.1).plus(b.2), a.3, b.3);
}

/// Going from one place to a third by way of a second.
proof fn lemma_by_way<S: Scalar>(a: S, b: S, c: S)
    requires
        exact::<S>(),
    ensures
        a.minus(c) == a.minus(b).plus(b.minus(c)),
{
    lemma_difference_of_sums(a, b, b, c);
    lemma_commute(a, b);
    lemma_difference_of_sums(b, a, b, c);
    lemma_difference(b, b);
    lemma_zero(b);
    lemma_take_nothing(a.minus(c));
}

proof fn lemma_by_way_point<S: Scalar>(a: Vec3<S>, b: Vec3<S>, c: Vec3<S>)
    requires
        exact::<S>(),
    ensures
        a.minus(c) == a.minus(b).plus(b.minus(c)),
{
    lemma_by_way(a.x, b.x, c.x);
    lemma_by_way(a.y, b.y, c.y);
    lemma_by_way(a.z, b.z, c.z);
}

/// How far four points are by way of others.
proof fn lemma_separation<S: Scalar>(
    q: ControlPoints<S>,
    p: ControlPoints<S>,
    x: ControlPoints<S>,
)
    requires
        exact::<S>(),
    ensures
        ({
            let bend = points_inner(retracted(p, x), retracted(q, p));
            separation(q, x) == separation(p, x).plus(separation(q, p)).plus(bend.plus(bend))
        }),
{
    let (d, e) = (retracted(q, p), retracted(p, x));
    lemma_by_way_point(q.p0, p.p0, x.p0);
    lemma_by_way_point(q.p1, p.p1, x.p1);
    lemma_by_way_point(q.p2, p.p2, x.p2);
    lemma_by_way_point(q.p3, p.p3, x.p3);
    lemma_square_of_sum(d.p0, e.p0);
    lemma_square_of_sum(d.p1, e.p1);
    lemma_square_of_sum(d.p2, e.p2);
    lemma_square_of_sum(d.p3, e.p3);
    let near = (e.p0.squared(), e.p1.squared(), e.p2.squared(), e.p3.squared());
    let far = (d.p0.squared(), d.p1.squared(), d.p2.squared(), d.p3.squared());
    let bent = (e.p0.inner(d.p0), e.p1.inner(d.p1), e.p2.inner(d.p2), e.p3.inner(d.p3));
    let sums = (
        near.0.plus(far.0),
        near.1.plus(far.1),
        near.2.plus(far.2),
        near.3.plus(far.3),
    );
    let twice = (
        bent.0.plus(bent.0),
        bent.1.plus(bent.1),
        bent.2.plus(bent.2),
        bent.3.plus(bent.3),
    );
    lemma_four_sums(sums, twice);
    lemma_four_sums(near, far);
    lemma_four_sums(bent, bent);
}

/// What a force does along a way, where the points give way to it.
proof fn lemma_given_way<S: Scalar>(x: Vec3<S>, force: Vec3<S>, inverse: S, way: Vec3<S>)
    requires
        exact::<S>(),
    ensures
        x.minus(force.scaled(inverse)).minus(x).inner(way) == force.inner(way).times(
            inverse,
        ).negated(),
{
    let step = force.scaled(inverse);
    lemma_stepped_back(x.x, step.x);
    lemma_stepped_back(x.y, step.y);
    lemma_stepped_back(x.z, step.z);
    lemma_inner_negated(step, way);
    lemma_scaled_inner(way, force, inverse);
}

proof fn lemma_stepped_back<S: Scalar>(x: S, step: S)
    requires
        exact::<S>(),
    ensures
        x.minus(step).minus(x) == step.negated(),
{
    lemma_difference(x, step);
    lemma_undo(step.negated(), x);
}

/// Where a body gives way to a force by how little it resists, its weighted way does what the
/// force does, turned round.
proof fn lemma_bend<S: Scalar>(
    x: ControlPoints<S>,
    force: ControlPoints<S>,
    inverse: S,
    weight: S,
    way: ControlPoints<S>,
)
    requires
        exact::<S>(),
        weight.times(inverse) == one::<S>(),
    ensures
        ({
            let p = retracted(x, scaled_points(force, inverse));
            weight.times(points_inner(retracted(p, x), way)) == points_inner(force, way).negated()
        }),
{
    lemma_given_way(x.p0, force.p0, inverse, way.p0);
    lemma_given_way(x.p1, force.p1, inverse, way.p1);
    lemma_given_way(x.p2, force.p2, inverse, way.p2);
    lemma_given_way(x.p3, force.p3, inverse, way.p3);
    let a = force.p0.inner(way.p0);
    let b = force.p1.inner(way.p1);
    let c = force.p2.inner(way.p2);
    let d = force.p3.inner(way.p3);
    let (i, j) = (a.times(inverse), b.times(inverse));
    let (k, l) = (c.times(inverse), d.times(inverse));
    lemma_negation(i, j);
    lemma_negation(i.plus(j), k);
    lemma_negation(i.plus(j).plus(k), l);
    lemma_distribute(a, b, inverse);
    lemma_distribute(a.plus(b), c, inverse);
    lemma_distribute(a.plus(b).plus(c), d, inverse);
    let sum = points_inner(force, way);
    lemma_negated_product(weight, sum.times(inverse));
    lemma_product_commute(sum, inverse);
    lemma_product_associate(weight, inverse, sum);
    lemma_one(sum);
}

/// What a force at a point of a body does along a way of the body is what it does along the
/// way of the point.
proof fn lemma_attached_force<S: Scalar>(
    force: ControlPoints<S>,
    weights: Weights<S>,
    value: Vec3<S>,
    way: ControlPoints<S>,
)
    requires
        exact::<S>(),
    ensures
        points_inner(accumulate_attachment(force, weights, value), way) == points_inner(
            force,
            way,
        ).plus(value.inner(weighted_point(way, weights))),
{
    let scaled = ControlPoints {
        p0: value.scaled(weights.w0),
        p1: value.scaled(weights.w1),
        p2: value.scaled(weights.w2),
        p3: value.scaled(weights.w3),
    };
    lemma_inner_plus(force.p0, scaled.p0, way.p0);
    lemma_inner_plus(force.p1, scaled.p1, way.p1);
    lemma_inner_plus(force.p2, scaled.p2, way.p2);
    lemma_inner_plus(force.p3, scaled.p3, way.p3);
    lemma_four_sums(
        (
            force.p0.inner(way.p0),
            force.p1.inner(way.p1),
            force.p2.inner(way.p2),
            force.p3.inner(way.p3),
        ),
        (
            scaled.p0.inner(way.p0),
            scaled.p1.inner(way.p1),
            scaled.p2.inner(way.p2),
            scaled.p3.inner(way.p3),
        ),
    );
    lemma_scale_across(value, way.p0, weights.w0);
    lemma_scale_across(value, way.p1, weights.w1);
    lemma_scale_across(value, way.p2, weights.w2);
    lemma_scale_across(value, way.p3, weights.w3);
    let first = Vec3::<S>::origin().plus(way.p0.scaled(weights.w0));
    let second = first.plus(way.p1.scaled(weights.w1));
    let third = second.plus(way.p2.scaled(weights.w2));
    lemma_inner_plus(Vec3::origin(), way.p0.scaled(weights.w0), value);
    lemma_inner_plus(first, way.p1.scaled(weights.w1), value);
    lemma_inner_plus(second, way.p2.scaled(weights.w2), value);
    lemma_inner_plus(third, way.p3.scaled(weights.w3), value);
    lemma_zero(value.x);
    lemma_zero(value.y);
    lemma_zero(value.z);
    lemma_take_nothing(zero::<S>());
    lemma_take_nothing(value.inner(way.p0.scaled(weights.w0)));
}

proof fn lemma_scale_across<S: Scalar>(value: Vec3<S>, way: Vec3<S>, factor: S)
    requires
        exact::<S>(),
    ensures
        value.scaled(factor).inner(way) == value.inner(way.scaled(factor)),
{
    lemma_scaled_inner(way, value, factor);
    lemma_scaled_inner(value, way, factor);
}

/// Whether the ends of a joint go the same way.
spec fn joint_follows<S: Scalar>(joint: BallJoint<S>, ways: Seq<ControlPoints<S>>) -> bool {
    &&& joint.a.body < ways.len()
    &&& joint.b.body < ways.len()
    &&& weighted_point(ways[joint.a.body as int], joint.a.weights) == weighted_point(
        ways[joint.b.body as int],
        joint.b.weights,
    )
}

/// The forces of joints do nothing, all in all, along ways on which the joints stay closed.
proof fn lemma_forces_balance<S: Scalar>(
    joints: Seq<BallJoint<S>>,
    multiplier: Seq<Vec3<S>>,
    ways: Seq<ControlPoints<S>>,
    count: int,
)
    requires
        exact::<S>(),
        0 <= count <= joints.len(),
        forall|j: int| 0 <= j < count ==> joint_follows(#[trigger] joints[j], ways),
    ensures
        total(
            |b: int| points_inner(accumulated_force(joints, multiplier, count, b), ways[b]),
            ways.len() as int,
        ) == zero::<S>(),
    decreases count,
{
    let bodies = ways.len() as int;
    let work = |b: int| points_inner(accumulated_force(joints, multiplier, count, b), ways[b]);
    if count == 0 {
        assert forall|b: int| 0 <= b < bodies implies #[trigger] work(b) == (if b == -1 {
            zero::<S>()
        } else {
            zero()
        }) by {
            let way = ways[b];
            lemma_no_work(way.p0);
            lemma_no_work(way.p1);
            lemma_no_work(way.p2);
            lemma_no_work(way.p3);
            lemma_take_nothing(zero::<S>());
        }
        lemma_total_single(work, -1, zero(), bodies);
    } else {
        let joint = joints[count - 1];
        let value = multiplier[count - 1];
        let before = |b: int|
            points_inner(accumulated_force(joints, multiplier, count - 1, b), ways[b]);
        let (a, c) = (joint.a.body as int, joint.b.body as int);
        assert(joint_follows(joint, ways));
        let way = weighted_point(ways[a], joint.a.weights);
        let pull = value.inner(way);
        let push = value.negated().inner(way);
        let pulled = |b: int|
            if b == a {
                pull
            } else {
                zero()
            };
        let pushed = |b: int|
            if b == c {
                push
            } else {
                zero()
            };
        let middle = |b: int| before(b).plus(pulled(b));
        assert forall|b: int| 0 <= b < bodies implies #[trigger] work(b) == middle(b).plus(
            pushed(b),
        ) by {
            let force = accumulated_force(joints, multiplier, count - 1, b);
            let taken = if a == b {
                accumulate_attachment(force, joint.a.weights, value)
            } else {
                force
            };
            lemma_attached_force(force, joint.a.weights, value, ways[b]);
            lemma_attached_force(taken, joint.b.weights, value.negated(), ways[b]);
            lemma_take_nothing(before(b));
            lemma_take_nothing(middle(b));
        }
        lemma_forces_balance(joints, multiplier, ways, count - 1);
        lemma_total_plus(before, pulled, middle, bodies);
        lemma_total_plus(middle, pushed, work, bodies);
        lemma_total_single(pulled, a, pull, bodies);
        lemma_total_single(pushed, c, push, bodies);
        lemma_inner_negated(value, way);
        lemma_take_nothing(pull);
        lemma_zero(pull);
    }
}

proof fn lemma_no_work<S: Scalar>(way: Vec3<S>)
    requires
        exact::<S>(),
    ensures
        Vec3::<S>::origin().inner(way) == zero::<S>(),
{
    lemma_zero(way.x);
    lemma_zero(way.y);
    lemma_zero(way.z);
    lemma_take_nothing(zero::<S>());
}

/// One coordinate of the way of a point between four others.
proof fn lemma_way_coordinate<S: Scalar>(
    q: (S, S, S, S),
    p: (S, S, S, S),
    w: (S, S, S, S),
)
    requires
        exact::<S>(),
    ensures
        zero::<S>().plus(q.0.minus(p.0).times(w.0)).plus(q.1.minus(p.1).times(w.1)).plus(
            q.2.minus(p.2).times(w.2),
        ).plus(q.3.minus(p.3).times(w.3)) == zero::<S>().plus(q.0.times(w.0)).plus(
            q.1.times(w.1),
        ).plus(q.2.times(w.2)).plus(q.3.times(w.3)).minus(
            zero::<S>().plus(p.0.times(w.0)).plus(p.1.times(w.1)).plus(p.2.times(w.2)).plus(
                p.3.times(w.3),
            ),
        ),
{
    lemma_distribute_difference(q.0, p.0, w.0);
    lemma_distribute_difference(q.1, p.1, w.1);
    lemma_distribute_difference(q.2, p.2, w.2);
    lemma_distribute_difference(q.3, p.3, w.3);
    let (a, b, c, d) = (q.0.times(w.0), q.1.times(w.1), q.2.times(w.2), q.3.times(w.3));
    let (e, f, g, h) = (p.0.times(w.0), p.1.times(w.1), p.2.times(w.2), p.3.times(w.3));
    lemma_take_nothing(a.minus(e));
    lemma_take_nothing(a);
    lemma_take_nothing(e);
    lemma_difference_of_sums(a, b, e, f);
    lemma_difference_of_sums(a.plus(b), c, e.plus(f), g);
    lemma_difference_of_sums(a.plus(b).plus(c), d, e.plus(f).plus(g), h);
}

/// The way of a point of a body is the point of the body's way.
proof fn lemma_way_of_point<S: Scalar>(
    q: ControlPoints<S>,
    p: ControlPoints<S>,
    weights: Weights<S>,
)
    requires
        exact::<S>(),
    ensures
        weighted_point(retracted(q, p), weights) == weighted_point(q, weights).minus(
            weighted_point(p, weights),
        ),
{
    let w = (weights.w0, weights.w1, weights.w2, weights.w3);
    lemma_way_coordinate((q.p0.x, q.p1.x, q.p2.x, q.p3.x), (p.p0.x, p.p1.x, p.p2.x, p.p3.x), w);
    lemma_way_coordinate((q.p0.y, q.p1.y, q.p2.y, q.p3.y), (p.p0.y, p.p1.y, p.p2.y, p.p3.y), w);
    lemma_way_coordinate((q.p0.z, q.p1.z, q.p2.z, q.p3.z), (p.p0.z, p.p1.z, p.p2.z, p.p3.z), w);
}

/// The points that a closed joint holds together are one.
proof fn lemma_closed_points<S: Scalar>(bodies: Seq<AffineBody<S>>, n: int, joint: int)
    requires
        exact::<S>(),
        n >= 2,
        hub_total(n) + joint_total(n) / 2 <= usize::MAX,
        joints_closed(bodies, n),
        0 <= joint < joint_total(n),
    ensures
        ({
            let held = net_joint::<S>(n, joint);
            point_of(bodies[held.a.body as int], held.a.weights) == point_of(
                bodies[held.b.body as int],
                held.b.weights,
            )
        }),
{
    lemma_counts(n);
    lemma_joint_is_neighbor(n, joint);
    let end = rod_endpoints(bodies, n)[joint];
    let center = hub_centers(bodies, n)[joint_hub(n, joint)];
    assert(joint_residual(rod_endpoints(bodies, n), hub_centers(bodies, n), n, joint)
        == Vec3::<S>::origin());
    lemma_undo(end.x, center.x);
    lemma_undo(end.y, center.y);
    lemma_undo(end.z, center.z);
    lemma_take_nothing(center.x);
    lemma_take_nothing(center.y);
    lemma_take_nothing(center.z);
    lemma_joint_point_of(bodies[hub_total(n) + joint / 2]);
    lemma_joint_point_of(bodies[joint_hub(n, joint)]);
}

/// The effort of one body by way of where the joint solve puts it.
proof fn lemma_body_effort<S: Scalar>(
    body: AffineBody<S>,
    force: ControlPoints<S>,
    p: ControlPoints<S>,
    q: ControlPoints<S>,
)
    requires
        exact::<S>(),
        body.fixed ==> p == body.positions && q == body.positions,
        !body.fixed ==> p == retracted(
            body.positions,
            scaled_points(force, body.inverse_diagonal),
        ),
        !body.fixed ==> resistance(body).times(body.inverse_diagonal) == one::<S>(),
    ensures
        ({
            let weight = resistance(body);
            let against = points_inner(force, retracted(q, p)).negated();
            weight.times(separation(q, body.positions)) == weight.times(
                separation(p, body.positions),
            ).plus(weight.times(separation(q, p))).plus(against.plus(against))
        }),
{
    let weight = resistance(body);
    let x = body.positions;
    let (d, e) = (retracted(q, p), retracted(p, x));
    let bend = points_inner(e, d);
    let work = points_inner(force, d);
    lemma_separation(q, p, x);
    lemma_distribute_left(separation(p, x).plus(separation(q, p)), bend.plus(bend), weight);
    lemma_distribute_left(separation(p, x), separation(q, p), weight);
    lemma_distribute_left(bend, bend, weight);
    assert(weight.times(bend) == work.negated()) by {
        if body.fixed {
            lemma_no_way(x);
            lemma_still(force.p0);
            lemma_still(force.p1);
            lemma_still(force.p2);
            lemma_still(force.p3);
            lemma_no_work(d.p0);
            lemma_no_work(d.p1);
            lemma_no_work(d.p2);
            lemma_no_work(d.p3);
            lemma_take_nothing(zero::<S>());
            lemma_zero(weight);
        } else {
            lemma_bend(x, force, body.inverse_diagonal, weight, d);
        }
    }
}

proof fn lemma_no_way<S: Scalar>(x: ControlPoints<S>)
    requires
        exact::<S>(),
    ensures
        retracted(x, x) == no_force::<S>(),
{
    lemma_nowhere(x.p0);
    lemma_nowhere(x.p1);
    lemma_nowhere(x.p2);
    lemma_nowhere(x.p3);
}

proof fn lemma_nowhere<S: Scalar>(x: Vec3<S>)
    requires
        exact::<S>(),
    ensures
        x.minus(x) == Vec3::<S>::origin(),
{
    lemma_difference(x.x, x.x);
    lemma_difference(x.y, x.y);
    lemma_difference(x.z, x.z);
    lemma_zero(x.x);
    lemma_zero(x.y);
    lemma_zero(x.z);
}

proof fn lemma_still<S: Scalar>(force: Vec3<S>)
    requires
        exact::<S>(),
    ensures
        force.inner(Vec3::origin()) == zero::<S>(),
{
    lemma_zero(force.x);
    lemma_zero(force.y);
    lemma_zero(force.z);
    lemma_take_nothing(zero::<S>());
}

/// What forces do to each body on the way from one placement to another.
spec fn works<S: Scalar>(
    forces: Seq<ControlPoints<S>>,
    from: Seq<AffineBody<S>>,
    to: Seq<AffineBody<S>>,
) -> spec_fn(int) -> S {
    |i: int| points_inner(forces[i], retracted(to[i].positions, from[i].positions))
}

/// Whether a placement is where a force puts a body that resists it.
spec fn gives_way<S: Scalar>(
    body: AffineBody<S>,
    force: ControlPoints<S>,
    placed: AffineBody<S>,
) -> bool {
    &&& body.fixed ==> placed.positions == body.positions
    &&& !body.fixed ==> placed.positions == retracted(
        body.positions,
        scaled_points(force, body.inverse_diagonal),
    )
    &&& !body.fixed ==> resistance(body).times(body.inverse_diagonal) == one::<S>()
}

/// The efforts of all bodies by way of where forces that balance put them.
proof fn lemma_efforts_add<S: Scalar>(
    bodies: Seq<AffineBody<S>>,
    placed: Seq<AffineBody<S>>,
    other: Seq<AffineBody<S>>,
    forces: Seq<ControlPoints<S>>,
)
    requires
        exact::<S>(),
        total(works(forces, placed, other), bodies.len() as int) == zero::<S>(),
        forall|i: int|
            0 <= i < bodies.len() ==> gives_way(#[trigger] bodies[i], forces[i], placed[i]),
        forall|i: int|
            0 <= i < bodies.len() && (#[trigger] bodies[i]).fixed ==> other[i].positions
                == bodies[i].positions,
    ensures
        effort(bodies, bodies, other) == effort(bodies, bodies, placed).plus(
            effort(bodies, placed, other),
        ),
{
    let count = bodies.len() as int;
    let whole = |i: int|
        resistance(bodies[i]).times(separation(other[i].positions, bodies[i].positions));
    let first = |i: int|
        resistance(bodies[i]).times(separation(placed[i].positions, bodies[i].positions));
    let second = |i: int|
        resistance(bodies[i]).times(separation(other[i].positions, placed[i].positions));
    let work = works(forces, placed, other);
    let against = |i: int| work(i).negated();
    let twice = |i: int| against(i).plus(against(i));
    let both = |i: int| first(i).plus(second(i));
    let nothing = |i: int| zero::<S>();
    assert forall|i: int| 0 <= i < count implies #[trigger] whole(i) == both(i).plus(
        twice(i),
    ) by {
        assert(gives_way(bodies[i], forces[i], placed[i]));
        lemma_body_effort(bodies[i], forces[i], placed[i].positions, other[i].positions);
    }
    assert forall|i: int| 0 <= i < count implies #[trigger] nothing(i) == work(i).plus(
        against(i),
    ) by {
        lemma_zero(work(i));
    }
    lemma_total_plus(work, against, nothing, count);
    lemma_total_single(nothing, -1, zero(), count);
    lemma_take_nothing(total(against, count));
    lemma_total_plus(against, against, twice, count);
    lemma_total_plus(first, second, both, count);
    lemma_total_plus(both, twice, whole, count);
    lemma_take_nothing(zero::<S>());
    lemma_take_nothing(total(both, count));
}

/// No placement is at a negative distance from another.
proof fn lemma_effort_sign<S: Scalar>(
    bodies: Seq<AffineBody<S>>,
    from: Seq<AffineBody<S>>,
    to: Seq<AffineBody<S>>,
)
    requires
        ordered::<S>(),
        forall|i: int|
            0 <= i < bodies.len() ==> zero::<S>().at_most(resistance(#[trigger] bodies[i])),
    ensures
        zero::<S>().at_most(effort(bodies, from, to)),
{
    let term = |i: int|
        resistance(bodies[i]).times(separation(to[i].positions, from[i].positions));
    assert forall|i: int| 0 <= i < bodies.len() implies zero::<S>().at_most(#[trigger] term(i)) by {
        let way = retracted(to[i].positions, from[i].positions);
        lemma_squared(way.p0);
        lemma_squared(way.p1);
        lemma_squared(way.p2);
        lemma_squared(way.p3);
        let sum = way.p0.squared().plus(way.p1.squared());
        lemma_part_of_sum(way.p0.squared(), way.p1.squared());
        lemma_part_of_sum(sum, way.p2.squared());
        lemma_part_of_sum(sum.plus(way.p2.squared()), way.p3.squared());
        lemma_sign(resistance(bodies[i]), separation(to[i].positions, from[i].positions));
    }
    lemma_total_sign(term, bodies.len() as int);
}

/// Whether a placement of a net's bodies is one that the joint solve may choose: every joint
/// is closed, and every pinned body is where it was.
pub open spec fn allowed<S: Scalar>(
    setup: Setup<S>,
    bodies: Seq<AffineBody<S>>,
    placed: Seq<AffineBody<S>>,
) -> bool {
    &&& placed.len() == bodies.len()
    &&& joints_closed(placed, setup.grid_size as int)
    &&& forall|i: int|
        0 <= i < bodies.len() && (#[trigger] bodies[i]).fixed ==> placed[i].positions
            == bodies[i].positions
}

/// The multipliers of the joint solve.
spec fn solution_of<S: Scalar>(setup: Setup<S>, motion: Motion<S>) -> Seq<Vec3<S>> {
    let n = setup.grid_size as int;
    multipliers(
        joint_residuals(motion.residuals, motion.hubs, n),
        dual_coefficients(setup, motion.bodies),
        n,
    )
}

/// Where the joint solve puts a body: a pinned one stays, a free one gives way to the forces
/// of its joints.
proof fn lemma_placed_body<S: Scalar>(setup: Setup<S>, motion: Motion<S>, dt: S, number: int)
    requires
        ordered::<S>(),
        setup.well_formed(),
        motion.well_formed(setup),
        coefficients_of(setup, motion, dt),
        divisible(setup, motion.bodies),
        0 <= number < motion.bodies.len(),
        zero::<S>().below(resistance(motion.bodies[number])),
    ensures
        ({
            let body = motion.bodies[number];
            let placed = jointed(setup, motion).bodies[number];
            let force = joint_force(setup.joints, solution_of(setup, motion), number);
            gives_way(body, force, placed)
        }),
{
    lemma_ordered_is_exact::<S>();
    let n = setup.grid_size as int;
    let body = motion.bodies[number];
    let solution = solution_of(setup, motion);
    lemma_dual_is_direct(setup, motion, dt);
    lemma_generic_correction(setup, motion, solution, number);
    assert(jointed(setup, motion).bodies[number] == body_with_multipliers(
        body,
        number,
        solution,
        n,
    ));
    assert(body == body.with_coefficients(dt));
    lemma_compare(zero(), resistance(body));
    if !body.fixed {
        lemma_quotient(one(), resistance(body));
    }
}

/// Between two placements that close the joints the ends of every joint go the same way.
proof fn lemma_joints_follow<S: Scalar>(
    n: int,
    placed: Seq<AffineBody<S>>,
    other: Seq<AffineBody<S>>,
    ways: Seq<ControlPoints<S>>,
    joint: int,
)
    requires
        exact::<S>(),
        n >= 2,
        hub_total(n) + joint_total(n) / 2 <= usize::MAX,
        hub_total(n) + joint_total(n) / 2 <= ways.len(),
        joints_closed(placed, n),
        joints_closed(other, n),
        forall|i: int|
            0 <= i < ways.len() ==> (#[trigger] ways[i]) == retracted(
                other[i].positions,
                placed[i].positions,
            ),
        0 <= joint < joint_total(n),
    ensures
        joint_follows(net_joint::<S>(n, joint), ways),
{
    lemma_counts(n);
    lemma_joint_is_neighbor(n, joint);
    let held = net_joint::<S>(n, joint);
    let (a, b) = (held.a.body as int, held.b.body as int);
    lemma_closed_points(other, n, joint);
    lemma_closed_points(placed, n, joint);
    lemma_way_of_point(other[a].positions, placed[a].positions, held.a.weights);
    lemma_way_of_point(other[b].positions, placed[b].positions, held.b.weights);
}

/// The forces of the joint solve do nothing, all in all, on the way to another placement that
/// closes the joints.
proof fn lemma_solution_balances<S: Scalar>(
    setup: Setup<S>,
    solution: Seq<Vec3<S>>,
    forces: Seq<ControlPoints<S>>,
    placed: Seq<AffineBody<S>>,
    other: Seq<AffineBody<S>>,
)
    requires
        exact::<S>(),
        setup.well_formed(),
        forall|i: int|
            0 <= i < placed.len() ==> (#[trigger] forces[i]) == joint_force(
                setup.joints,
                solution,
                i,
            ),
        solution.len() == joint_total(setup.grid_size as int),
        hub_total(setup.grid_size as int) + joint_total(setup.grid_size as int) / 2
            <= placed.len(),
        hub_total(setup.grid_size as int) + joint_total(setup.grid_size as int) / 2 <= usize::MAX,
        other.len() == placed.len(),
        joints_closed(placed, setup.grid_size as int),
        joints_closed(other, setup.grid_size as int),
    ensures
        total(works(forces, placed, other), placed.len() as int) == zero::<S>(),
{
    let n = setup.grid_size as int;
    let joints = setup.joints;
    let ways = Seq::new(
        placed.len(),
        |i: int| retracted(other[i].positions, placed[i].positions),
    );
    lemma_counts(n);
    assert forall|j: int| 0 <= j < joints.len() implies joint_follows(
        #[trigger] joints[j],
        ways,
    ) by {
        assert(joints[j] == net_joint::<S>(n, j));
        lemma_joints_follow(n, placed, other, ways, j);
    }
    lemma_forces_balance(joints, solution, ways, joints.len() as int);
    let work = works(forces, placed, other);
    let same = |b: int|
        points_inner(accumulated_force(joints, solution, joints.len() as int, b), ways[b]);
    assert forall|b: int| 0 <= b < placed.len() implies #[trigger] same(b) == work(b) by {
        assert(forces[b] == joint_force(joints, solution, b));
    }
    lemma_total_same(same, work, placed.len() as int);
}

/// In exact arithmetic the joint solve finds the closest placement that closes every joint and
/// leaves the pinned bodies: any other is further away, by as much as it is away from that.
pub proof fn lemma_solve_is_closest<S: Scalar>(
    setup: Setup<S>,
    motion: Motion<S>,
    dt: S,
    other: Seq<AffineBody<S>>,
)
    requires
        ordered::<S>(),
        setup.well_formed(),
        motion.well_formed(setup),
        coefficients_of(setup, motion, dt),
        divisible(setup, motion.bodies),
        motion.residuals == rod_endpoints(motion.bodies, setup.grid_size as int),
        motion.hubs == hub_centers(motion.bodies, setup.grid_size as int),
        forall|i: int|
            0 <= i < motion.bodies.len() ==> zero::<S>().below(
                resistance(#[trigger] motion.bodies[i]),
            ),
        allowed(setup, motion.bodies, other),
    ensures
        ({
            let bodies = motion.bodies;
            let placed = jointed(setup, motion).bodies;
            &&& allowed(setup, bodies, placed)
            &&& effort(bodies, bodies, placed).at_most(effort(bodies, bodies, other))
            &&& effort(bodies, bodies, other) == effort(bodies, bodies, placed).plus(
                effort(bodies, placed, other),
            )
        }),
{
    lemma_ordered_is_exact::<S>();
    let n = setup.grid_size as int;
    let bodies = motion.bodies;
    let placed = jointed(setup, motion).bodies;
    let solution = solution_of(setup, motion);
    let forces = Seq::new(bodies.len(), |i: int| joint_force(setup.joints, solution, i));
    lemma_counts(n);
    lemma_joint_solve_closes(setup, motion, dt);
    lemma_jointed(setup, motion);
    assert forall|i: int| 0 <= i < bodies.len() implies gives_way(
        #[trigger] bodies[i],
        forces[i],
        placed[i],
    ) && zero::<S>().at_most(resistance(bodies[i])) by {
        lemma_placed_body(setup, motion, dt, i);
        lemma_compare(zero(), resistance(bodies[i]));
    }
    lemma_solution_balances(setup, solution, forces, placed, other);
    lemma_efforts_add(bodies, placed, other, forces);
    lemma_effort_sign(bodies, bodies, placed);
    lemma_effort_sign(bodies, placed, other);
    lemma_part_of_sum(effort(bodies, bodies, placed), effort(bodies, placed, other));
}

} // verus!
