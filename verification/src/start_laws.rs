//! In exact arithmetic a demo starts with its joints closed and its bodies where its actors
//! stand.

use crate::body::{
    ball_rest_points, centroid, hub_attachment_center, hub_rest_points, rod_half_length,
    rod_joint_endpoints, rod_radius, rod_rest_points, tetrahedron, AffineBody, BodyKind,
    ControlPoints,
};
use crate::constants::{ball_radius, grid_spacing, hub_radius};
use crate::exact::joints_closed;
use crate::field::{
    exact, lemma_associate, lemma_commute, lemma_difference, lemma_distribute,
    lemma_distribute_difference, lemma_exchange, lemma_negated_product, lemma_negation, lemma_one,
    lemma_parts, lemma_product_commute, lemma_quotient, lemma_take_nothing, lemma_zero,
};
use crate::gather::joint_residual;
use crate::grid::{
    end_hub, horizontal_total, hub_total, joint_hub, joint_total, lemma_counts, lemma_index_row,
    lemma_joint_is_neighbor, lemma_row_index, net_total, rod_total, start_hub,
};
use crate::net::{
    ball_position, ball_total, fits, hub_position, initial_bodies, initial_body, rod_between, turned_rod_points,
};
use crate::order::{lemma_compare, ordered};
use crate::rotation_laws::{
    lemma_direction, lemma_equal_squares, lemma_exchange_pairs, lemma_length,
    lemma_no_product_is_zero, lemma_rooted, lemma_unit_normal, rooted,
};
use crate::scalar::{half, one, quarter, zero, Scalar};
use crate::scene::DemoScene;
use crate::shapes::{hub_centers, rod_endpoints};
use crate::span_laws::lemma_spacing_kept;
use crate::vector::Vec3;
use crate::world::{actor_of, actor_offsets, lemma_actors_match_bodies};
use vstd::prelude::*;

verus! {

/// Turning a sum is adding what is turned.
pub open spec fn turning_adds<S: Scalar>(direction: Vec3<S>, u: Vec3<S>, v: Vec3<S>) -> bool {
    S::turned(direction, u.plus(v)) == S::turned(direction, u).plus(S::turned(direction, v))
}

/// Turning keeps lengths in proportion.
pub open spec fn turning_scales<S: Scalar>(direction: Vec3<S>, u: Vec3<S>, factor: S) -> bool {
    S::turned(direction, u.scaled(factor)) == S::turned(direction, u).scaled(factor)
}

/// Turning takes the x axis to the direction.
pub open spec fn turning_leads<S: Scalar>(direction: Vec3<S>) -> bool {
    direction.squared() == one::<S>() ==> S::turned(direction, Vec3::x_unit()) == direction
}

/// Whether the arithmetic is exact, has roots, and turns points as a rotation does.
#[verifier::opaque]
pub open spec fn turning<S: Scalar>() -> bool {
    &&& rooted::<S>()
    &&& forall|direction: Vec3<S>, u: Vec3<S>, v: Vec3<S>| #[trigger] turning_adds(direction, u, v)
    &&& forall|direction: Vec3<S>, u: Vec3<S>, factor: S| #[trigger]
        turning_scales(direction, u, factor)
    &&& forall|direction: Vec3<S>| #[trigger] turning_leads(direction)
    &&& zero::<S>().below(grid_spacing())
}

proof fn lemma_turning<S: Scalar>()
    requires
        turning::<S>(),
    ensures
        rooted::<S>(),
        ordered::<S>(),
        exact::<S>(),
        zero::<S>().below(grid_spacing()),
{
    reveal(turning);
    lemma_rooted::<S>();
}

proof fn lemma_turned_pair<S: Scalar>(direction: Vec3<S>, u: Vec3<S>, v: Vec3<S>, factor: S)
    requires
        turning::<S>(),
    ensures
        S::turned(direction, u).scaled(factor).plus(S::turned(direction, v).scaled(factor))
            == S::turned(direction, u.scaled(factor).plus(v.scaled(factor))),
{
    reveal(turning);
    assert(turning_scales(direction, u, factor));
    assert(turning_scales(direction, v, factor));
    assert(turning_adds(direction, u.scaled(factor), v.scaled(factor)));
}

proof fn lemma_turned_along_x<S: Scalar>(direction: Vec3<S>, length: S)
    requires
        turning::<S>(),
        direction.squared() == one::<S>(),
    ensures
        S::turned(direction, Vec3 { x: length, y: zero(), z: zero() }) == direction.scaled(length),
{
    lemma_turning::<S>();
    reveal(turning);
    assert(turning_scales(direction, Vec3::<S>::x_unit(), length));
    assert(turning_leads(direction));
    lemma_one(length);
    lemma_zero(length);
    assert(Vec3::<S>::x_unit().scaled(length) == (Vec3 { x: length, y: zero(), z: zero() }));
}

/// Two halves of opposite numbers cancel, and two halves of one add up.
proof fn lemma_halves<S: Scalar>(a: S)
    requires
        exact::<S>(),
    ensures
        a.times(half()).plus(a.times(half())) == a,
        a.times(half()).plus(a.negated().times(half())) == zero::<S>(),
        a.negated().times(half()).plus(a.times(half())) == zero::<S>(),
{
    lemma_parts(a);
    lemma_negated_product(a, half());
    lemma_zero(a.times(half()));
    lemma_commute(a.negated().times(half()), a.times(half()));
}

/// The middles of the ends of a rod's rest shape lie on its axis.
proof fn lemma_rest_ends<S: Scalar>()
    requires
        exact::<S>(),
    ensures
        ({
            let rest = rod_rest_points::<S>();
            let length = rod_half_length::<S>();
            &&& rest.p0.scaled(half()).plus(rest.p1.scaled(half())) == (Vec3 {
                x: length.negated(),
                y: zero(),
                z: zero(),
            })
            &&& rest.p2.scaled(half()).plus(rest.p3.scaled(half())) == (Vec3 {
                x: length,
                y: zero(),
                z: zero(),
            })
        }),
{
    lemma_halves(rod_half_length::<S>());
    lemma_halves(rod_half_length::<S>().negated());
    lemma_halves(rod_radius::<S>());
}

/// One coordinate of the middle of two points about a place.
proof fn lemma_middle_about<S: Scalar>(place: S, first: S, second: S)
    requires
        exact::<S>(),
    ensures
        place.plus(first).times(half()).plus(place.plus(second).times(half())) == place.plus(
            first.times(half()).plus(second.times(half())),
        ),
{
    lemma_distribute(place, first, half());
    lemma_distribute(place, second, half());
    lemma_exchange(
        place.times(half()),
        first.times(half()),
        place.times(half()),
        second.times(half()),
    );
    lemma_parts(place);
}

/// The middle of two points about a place.
proof fn lemma_middle_point<S: Scalar>(place: Vec3<S>, first: Vec3<S>, second: Vec3<S>)
    requires
        exact::<S>(),
    ensures
        place.plus(first).scaled(half()).plus(place.plus(second).scaled(half())) == place.plus(
            first.scaled(half()).plus(second.scaled(half())),
        ),
{
    lemma_middle_about(place.x, first.x, second.x);
    lemma_middle_about(place.y, first.y, second.y);
    lemma_middle_about(place.z, first.z, second.z);
}

/// One coordinate of the ends of a rod: half its way from its middle.
proof fn lemma_back_to_end<S: Scalar>(start: S, end: S, inverse: S, spacing: S)
    requires
        exact::<S>(),
        inverse.times(spacing) == one::<S>(),
    ensures
        ({
            let middle = start.plus(end).times(half());
            let along = end.minus(start).times(inverse);
            let length = spacing.times(half());
            &&& middle.plus(along.times(length.negated())) == start
            &&& middle.plus(along.times(length)) == end
        }),
{
    let middle = start.plus(end).times(half());
    let gap = end.minus(start);
    let along = gap.times(inverse);
    let length = spacing.times(half());
    let (s, e) = (start.times(half()), end.times(half()));
    assert(along.times(length) == gap.times(half())) by {
        lemma_exchange_pairs(gap, inverse, half(), spacing);
        lemma_product_commute(half(), spacing);
        lemma_one(gap.times(half()));
    }
    lemma_negated_product(along, length);
    lemma_distribute_difference(end, start, half());
    lemma_distribute(start, end, half());
    let step = e.minus(s);
    lemma_difference(e, s);
    lemma_parts(start);
    lemma_parts(end);
    lemma_commute(s, e);
    lemma_exchange(e, s, e, s.negated());
    lemma_zero(s);
    lemma_take_nothing(e.plus(e));
    lemma_negation(e, s.negated());
    lemma_negation(s, s);
    lemma_exchange(s, e, s, e.negated());
    lemma_commute(e.negated(), s);
    lemma_zero(e);
    lemma_take_nothing(s.plus(s));
}

/// A rod between two points one grid spacing apart ends at them.
pub proof fn lemma_rod_reaches<S: Scalar>(start: Vec3<S>, end: Vec3<S>)
    requires
        turning::<S>(),
        end.minus(start).squared() == grid_spacing::<S>().times(grid_spacing()),
    ensures
        rod_joint_endpoints(rod_between(start, end).positions) == (start, end),
{
    lemma_turning::<S>();
    let gap = end.minus(start);
    let spacing = grid_spacing::<S>();
    let length = gap.squared().root();
    lemma_compare(zero(), spacing);
    lemma_length(gap);
    lemma_compare(length, spacing);
    if length.at_most(spacing) {
        lemma_equal_squares(length, spacing);
    } else {
        lemma_equal_squares(spacing, length);
    }
    let direction = gap.normal();
    let inverse = gap.inverse_length();
    lemma_quotient(one(), spacing);
    assert(direction.squared() == one::<S>()) by {
        if gap.squared() == zero::<S>() {
            lemma_no_product_is_zero(spacing, spacing);
        }
        lemma_direction(gap);
        lemma_unit_normal(gap);
    }
    let place = start.plus(end).scaled(half());
    let rest = rod_rest_points::<S>();
    let turned = turned_rod_points(direction);
    let half_length = rod_half_length::<S>();
    lemma_rest_ends::<S>();
    lemma_middle_point(place, turned.p0, turned.p1);
    lemma_middle_point(place, turned.p2, turned.p3);
    lemma_turned_pair(direction, rest.p0, rest.p1, half());
    lemma_turned_pair(direction, rest.p2, rest.p3, half());
    lemma_turned_along_x(direction, half_length.negated());
    lemma_turned_along_x(direction, half_length);
    lemma_back_to_end(start.x, end.x, inverse, spacing);
    lemma_back_to_end(start.y, end.y, inverse, spacing);
    lemma_back_to_end(start.z, end.z, inverse, spacing);
}

/// One coordinate of the centre of four points about a place.
proof fn lemma_centered<S: Scalar>(place: S, a: S, b: S, c: S, d: S)
    requires
        exact::<S>(),
        a.times(quarter()).plus(b.times(quarter())).plus(c.times(quarter())).plus(
            d.times(quarter()),
        ) == zero::<S>(),
    ensures
        place.plus(a).times(quarter()).plus(place.plus(b).times(quarter())).plus(
            place.plus(c).times(quarter()),
        ).plus(place.plus(d).times(quarter())) == place,
        place.plus(a).plus(place.plus(b)).plus(place.plus(c)).plus(place.plus(d)).times(
            quarter(),
        ) == place,
{
    let q = quarter::<S>();
    let m = place.times(q);
    lemma_distribute(place, a, q);
    lemma_distribute(place, b, q);
    lemma_distribute(place, c, q);
    lemma_distribute(place, d, q);
    lemma_exchange(m, a.times(q), m, b.times(q));
    lemma_exchange(m.plus(m), a.times(q).plus(b.times(q)), m, c.times(q));
    lemma_exchange(
        m.plus(m).plus(m),
        a.times(q).plus(b.times(q)).plus(c.times(q)),
        m,
        d.times(q),
    );
    lemma_parts(place);
    lemma_take_nothing(place);
    let (first, second) = (place.plus(a), place.plus(b));
    let (third, fourth) = (place.plus(c), place.plus(d));
    lemma_distribute(first, second, q);
    lemma_distribute(first.plus(second), third, q);
    lemma_distribute(first.plus(second).plus(third), fourth, q);
}

/// Whether points lie evenly about their middle.
pub open spec fn balanced<S: Scalar>(points: ControlPoints<S>) -> bool {
    points.p0.scaled(quarter()).plus(points.p1.scaled(quarter())).plus(
        points.p2.scaled(quarter()),
    ).plus(points.p3.scaled(quarter())) == Vec3::<S>::origin()
}

/// A body whose points lie evenly about a place has its centre there.
pub proof fn lemma_centered_body<S: Scalar>(body: AffineBody<S>, place: Vec3<S>, o: ControlPoints<S>)
    requires
        exact::<S>(),
        balanced(o),
        body.positions.p0 == place.plus(o.p0),
        body.positions.p1 == place.plus(o.p1),
        body.positions.p2 == place.plus(o.p2),
        body.positions.p3 == place.plus(o.p3),
    ensures
        hub_attachment_center(body.positions) == place,
        centroid(body.positions) == place,
{
    lemma_centered(place.x, o.p0.x, o.p1.x, o.p2.x, o.p3.x);
    lemma_centered(place.y, o.p0.y, o.p1.y, o.p2.y, o.p3.y);
    lemma_centered(place.z, o.p0.z, o.p1.z, o.p2.z, o.p3.z);
}

/// Two numbers and their opposites cancel, in whatever order.
proof fn lemma_cancel<S: Scalar>(k: S)
    requires
        exact::<S>(),
    ensures
        k.plus(k).plus(k.negated()).plus(k.negated()) == zero::<S>(),
        k.plus(k.negated()).plus(k).plus(k.negated()) == zero::<S>(),
        k.plus(k.negated()).plus(k.negated()).plus(k) == zero::<S>(),
{
    lemma_zero(k);
    lemma_associate(k, k, k.negated());
    lemma_take_nothing(k);
    lemma_take_nothing(k.negated());
    lemma_commute(k.negated(), k);
}

/// The corners of a tetrahedron lie evenly about its middle.
pub proof fn lemma_tetrahedron_balanced<S: Scalar>(scale: S)
    requires
        exact::<S>(),
    ensures
        balanced(tetrahedron(scale)),
{
    lemma_negated_product(one(), scale);
    lemma_negated_product(one::<S>().times(scale), quarter());
    lemma_cancel(one::<S>().times(scale).times(quarter()));
}

/// The points of a turned rod lie evenly about its middle.
proof fn lemma_rod_balanced<S: Scalar>(direction: Vec3<S>)
    requires
        turning::<S>(),
    ensures
        balanced(turned_rod_points(direction)),
{
    lemma_turning::<S>();
    let q = quarter::<S>();
    let rest = rod_rest_points::<S>();
    let turned = turned_rod_points(direction);
    let u = rest.p0.scaled(q).plus(rest.p1.scaled(q));
    let v = rest.p2.scaled(q).plus(rest.p3.scaled(q));
    let (first, second) = (turned.p0.scaled(q), turned.p1.scaled(q));
    let (third, fourth) = (turned.p2.scaled(q), turned.p3.scaled(q));
    lemma_turned_pair(direction, rest.p0, rest.p1, q);
    lemma_turned_pair(direction, rest.p2, rest.p3, q);
    assert(u.plus(v) == Vec3::<S>::origin()) by {
        let (length, radius) = (rod_half_length::<S>(), rod_radius::<S>());
        let (l, r) = (length.times(q), radius.times(q));
        lemma_negated_product(length, q);
        lemma_negated_product(radius, q);
        lemma_exchange(l.negated(), l.negated(), l, l);
        lemma_commute(l.negated(), l);
        lemma_zero(l);
        lemma_commute(r.negated(), r);
        lemma_zero(r);
        lemma_take_nothing(zero::<S>());
    }
    assert(S::turned(direction, u).plus(S::turned(direction, v)) == Vec3::<S>::origin()) by {
        reveal(turning);
        assert(turning_adds(direction, u, v));
        let axis = Vec3::<S>::x_unit();
        assert(turning_scales(direction, axis, zero()));
        lemma_zero(one::<S>());
        lemma_zero(zero::<S>());
        assert(axis.scaled(zero()) == Vec3::<S>::origin());
        let led = S::turned(direction, axis);
        lemma_zero(led.x);
        lemma_zero(led.y);
        lemma_zero(led.z);
    }
    lemma_associate(first.x.plus(second.x), third.x, fourth.x);
    lemma_associate(first.y.plus(second.y), third.y, fourth.y);
    lemma_associate(first.z.plus(second.z), third.z, fourth.z);
}

/// In exact arithmetic every body of a demo starts with its centre where its actor stands.
pub proof fn lemma_actors_at_centers<S: Scalar>(scene: DemoScene, grid_size: usize, number: int)
    requires
        turning::<S>(),
        grid_size >= 2,
        0 <= number < net_total(grid_size as int) + ball_total(scene),
    ensures
        centroid(initial_body::<S>(scene, grid_size, number).positions) == actor_of::<S>(
            scene,
            grid_size,
            number,
        ).position,
{
    lemma_turning::<S>();
    lemma_actors_match_bodies::<S>(scene, grid_size, number);
    let actor = actor_of::<S>(scene, grid_size, number);
    let root = S::fraction(3, 1).root();
    lemma_tetrahedron_balanced(hub_radius::<S>().over(root));
    lemma_tetrahedron_balanced(ball_radius::<S>().over(root));
    lemma_rod_balanced(actor.direction);
    lemma_centered_body(
        initial_body(scene, grid_size, number),
        actor.position,
        actor_offsets(actor),
    );
}

/// The hubs that a rod joins start one grid spacing apart.
proof fn lemma_hubs_apart<S: Scalar>(scene: DemoScene, grid_size: usize, rod: int)
    requires
        exact::<S>(),
        grid_size >= 2,
        0 <= rod < rod_total(grid_size as int),
    ensures
        ({
            let n = grid_size as int;
            let start = hub_position::<S>(scene, grid_size, start_hub(n, rod));
            let end = hub_position::<S>(scene, grid_size, end_hub(n, rod));
            end.minus(start).squared() == grid_spacing::<S>().times(grid_spacing())
        }),
{
    let n = grid_size as int;
    let spacing = grid_spacing::<S>();
    lemma_counts(n);
    let (row, column) = if rod < horizontal_total(n) {
        lemma_index_row(n - 1, n, rod);
        (rod / (n - 1), rod % (n - 1))
    } else {
        lemma_index_row(n, n - 1, rod - horizontal_total(n));
        ((rod - horizontal_total(n)) / n, (rod - horizontal_total(n)) % n)
    };
    assert((row + 1) * n == row * n + n) by (nonlinear_arith);
    lemma_row_index(n, n, row, column);
    if rod < horizontal_total(n) {
        lemma_row_index(n, n, row, column + 1);
    } else {
        lemma_row_index(n, n, row + 1, column);
    }
    lemma_spacing_kept::<S>(scene, grid_size, row as usize, column as usize);
    lemma_zero(zero::<S>());
    lemma_take_nothing(zero::<S>());
    lemma_take_nothing(spacing.times(spacing));
    lemma_negated_product(spacing, spacing);
    lemma_negated_product(spacing, spacing.negated());
    lemma_negation(spacing.times(spacing), zero());
}

/// In exact arithmetic every joint of a demo is closed at its start.
pub proof fn lemma_start_closed<S: Scalar>(scene: DemoScene, grid_size: usize)
    requires
        turning::<S>(),
        grid_size >= 2,
        fits(grid_size),
    ensures
        joints_closed(initial_bodies::<S>(scene, grid_size), grid_size as int),
{
    lemma_turning::<S>();
    let n = grid_size as int;
    let bodies = initial_bodies::<S>(scene, grid_size);
    lemma_counts(n);
    assert forall|joint: int| 0 <= joint < joint_total(n) implies #[trigger] joint_residual(
        rod_endpoints(bodies, n),
        hub_centers(bodies, n),
        n,
        joint,
    ) == Vec3::<S>::origin() by {
        let rod = joint / 2;
        let hub = joint_hub(n, joint);
        lemma_joint_is_neighbor(n, joint);
        let start = hub_position::<S>(scene, grid_size, start_hub(n, rod));
        let end = hub_position::<S>(scene, grid_size, end_hub(n, rod));
        assert(bodies[hub_total(n) + rod] == initial_body::<S>(
            scene,
            grid_size,
            hub_total(n) + rod,
        ));
        assert(bodies[hub] == initial_body::<S>(scene, grid_size, hub));
        lemma_hubs_apart::<S>(scene, grid_size, rod);
        lemma_rod_reaches(start, end);
        let place = hub_position::<S>(scene, grid_size, hub);
        lemma_tetrahedron_balanced(hub_radius::<S>().over(S::fraction(3, 1).root()));
        lemma_centered_body(bodies[hub], place, hub_rest_points());
        lemma_difference(place.x, place.x);
        lemma_difference(place.y, place.y);
        lemma_difference(place.z, place.z);
        lemma_zero(place.x);
        lemma_zero(place.y);
        lemma_zero(place.z);
    }
}

/// In exact arithmetic the three balls start with their centres high above the net that is to
/// catch them, apart from one another, free and at rest.
pub proof fn lemma_balls_start<S: Scalar>(grid_size: usize, ball: int)
    requires
        exact::<S>(),
        grid_size >= 2,
        0 <= ball < 3,
    ensures
        ({
            let body = initial_body::<S>(
                DemoScene::FallingBalls,
                grid_size,
                net_total(grid_size as int) + ball,
            );
            let center = centroid(body.positions);
            &&& body.kind == BodyKind::Ball
            &&& !body.fixed
            &&& body.predicted_positions == body.positions
            &&& center.x == (if ball == 0 {
                S::fraction(110, 100).negated()
            } else if ball == 1 {
                S::fraction(85, 100)
            } else {
                S::fraction(20, 100).negated()
            })
            &&& center.y == (if ball == 0 {
                S::fraction(280, 100)
            } else if ball == 1 {
                S::fraction(315, 100)
            } else {
                S::fraction(350, 100)
            })
            &&& center.z == (if ball == 0 {
                S::fraction(80, 100).negated()
            } else if ball == 1 {
                S::fraction(25, 100).negated()
            } else {
                S::fraction(105, 100)
            })
        }),
{
    let n = grid_size as int;
    lemma_counts(n);
    let body = initial_body::<S>(DemoScene::FallingBalls, grid_size, net_total(n) + ball);
    lemma_tetrahedron_balanced(ball_radius::<S>().over(S::fraction(3, 1).root()));
    lemma_centered_body(body, ball_position(ball), ball_rest_points());
}

} // verus!
