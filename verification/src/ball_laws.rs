//! Balls part from what they touch, touch whatever they are too close to, and nothing else.

use crate::attachment::{
    collider_end, collider_start, interpolate_weights, inverse_weight, pair_contact,
    pair_push, parting_normal, point_of,
};
use crate::balls::{
    ball_hub_distance, ball_net_push, ball_pair_distance, ball_pairs_from, ball_rod_distance,
    center_of, closest_parameter, lemma_pair_contact_moves, pair_fallback,
    point_outside_capsule_bounds,
};
use crate::body::{
    hub_center, lemma_only_moved_transitive, only_moved, rod_radius, weighted_point,
    AffineBody, BodyKind, ControlPoints, Weights,
};
use crate::clearance_laws::{
    leading, leads, lemma_above_epsilon, lemma_closest_on_segment, lemma_push_leads,
    lemma_stretched_radius, rod_point,
};
use crate::constants::{ball_radius, contact_epsilon, hub_radius};
use crate::contact_laws::{lemma_interpolated_point, lemma_pair_push_separates, lemma_proxy_points};
use crate::field::{
    exact, lemma_difference, lemma_distribute_left, lemma_negated_product, lemma_negation,
    lemma_one, lemma_take_nothing, lemma_zero,
};
use crate::joints::Attachment;
use crate::order::{
    lemma_chain, lemma_clamped, lemma_compare, lemma_half, lemma_ordered_is_exact,
    lemma_part_of_sum, lemma_square, ordered,
};
use crate::pruning_laws::{lemma_far_from_capsule, lemma_take_two};
use crate::reference::{ball_net_contact, ball_net_contacts_from};
use crate::rotation_laws::{
    lemma_inner_negated, lemma_length, lemma_no_product_is_zero, lemma_rooted, rooted,
};
use crate::scalar::{half, one, zero, Scalar};
use crate::vector::Vec3;
use vstd::prelude::*;

verus! {

/// The square of the distance of two points.
pub open spec fn apart<S: Scalar>(a: Vec3<S>, b: Vec3<S>) -> S {
    a.minus(b).squared()
}

/// Whether a fixed body gives way to nothing.
pub open spec fn fixed_holds<S: Scalar>(body: AffineBody<S>) -> bool {
    body.fixed ==> body.inverse_diagonal == zero::<S>()
}

/// In exact arithmetic two points that meet are at least the minimum distance apart
/// afterwards, unless they coincided: just that far where they were closer, and where they
/// were where they were not. No other body moves.
pub proof fn lemma_pair_clears<S: Scalar>(
    bodies: Seq<AffineBody<S>>,
    previous: Seq<ControlPoints<S>>,
    a: Attachment<S>,
    b: Attachment<S>,
    minimum_distance: S,
    fallback: Vec3<S>,
)
    requires
        rooted::<S>(),
        a.body < bodies.len(),
        b.body < bodies.len(),
        a.body != b.body,
        fixed_holds(bodies[a.body as int]),
        fixed_holds(bodies[b.body as int]),
        contact_epsilon::<S>().below(
            inverse_weight(bodies[a.body as int], a.weights).plus(
                inverse_weight(bodies[b.body as int], b.weights),
            ),
        ),
        contact_epsilon::<S>().below(
            apart(
                point_of(bodies[a.body as int], a.weights),
                point_of(bodies[b.body as int], b.weights),
            ),
        ),
    ensures
        ({
            let after = pair_contact(bodies, previous, a, b, minimum_distance, fallback);
            let square = minimum_distance.times(minimum_distance);
            let before_apart = apart(
                point_of(bodies[a.body as int], a.weights),
                point_of(bodies[b.body as int], b.weights),
            );
            let after_apart = apart(
                point_of(after[a.body as int], a.weights),
                point_of(after[b.body as int], b.weights),
            );
            &&& square.at_most(after_apart)
            &&& square.at_most(before_apart) ==> after == bodies
            &&& before_apart.below(square) ==> after_apart == square
            &&& after.len() == bodies.len()
            &&& forall|i: int|
                0 <= i < bodies.len() && i != a.body && i != b.body ==> #[trigger] after[i]
                    == bodies[i]
        }),
{
    lemma_rooted::<S>();
    let (i, j) = (a.body as int, b.body as int);
    let after = pair_contact(bodies, previous, a, b, minimum_distance, fallback);
    let square = minimum_distance.times(minimum_distance);
    let delta = point_of(bodies[i], a.weights).minus(point_of(bodies[j], b.weights));
    let weight = inverse_weight(bodies[i], a.weights).plus(inverse_weight(bodies[j], b.weights));
    lemma_compare(square, delta.squared());
    lemma_compare(square, square);
    lemma_compare(weight, contact_epsilon());
    lemma_above_epsilon(weight);
    lemma_above_epsilon(delta.squared());
    if square.at_most(delta.squared()) {
        assert(after =~= bodies);
    } else {
        lemma_length(delta);
        lemma_compare(zero(), delta.squared().root());
        lemma_pair_push_separates(
            bodies[i],
            a.weights,
            previous[i],
            bodies[j],
            b.weights,
            previous[j],
            minimum_distance,
            fallback,
        );
        lemma_stretched_radius(delta, minimum_distance);
    }
}

/// Two points are pushed apart where they are closer than the minimum distance and a push can
/// move one of their bodies, and only there.
pub proof fn lemma_pair_pushed_where<S: Scalar>(
    a: (AffineBody<S>, Weights<S>, ControlPoints<S>, Vec3<S>),
    b: (AffineBody<S>, Weights<S>, ControlPoints<S>, Vec3<S>),
    minimum_distance: S,
    fallback: Vec3<S>,
)
    requires
        ordered::<S>(),
    ensures
        ({
            let push = pair_push(a, b, minimum_distance, fallback);
            &&& push.2 <==> apart(a.3, b.3).below(minimum_distance.times(minimum_distance))
                && S::fraction(1, 1000000000000).below(
                inverse_weight(a.0, a.1).plus(inverse_weight(b.0, b.1)),
            )
            &&& !push.2 ==> push.0 == a.0 && push.1 == b.0
        }),
{
    lemma_compare(minimum_distance.times(minimum_distance), apart(a.3, b.3));
    lemma_compare(
        inverse_weight(a.0, a.1).plus(inverse_weight(b.0, b.1)),
        contact_epsilon(),
    );
}

/// In exact arithmetic two points that coincide part along where they lay from each other
/// before the step, else along a direction that is given, to just the minimum distance.
pub proof fn lemma_coincident_part<S: Scalar>(
    a: AffineBody<S>,
    a_weights: Weights<S>,
    a_previous: ControlPoints<S>,
    b: AffineBody<S>,
    b_weights: Weights<S>,
    b_previous: ControlPoints<S>,
    minimum_distance: S,
    fallback: Vec3<S>,
)
    requires
        rooted::<S>(),
        fixed_holds(a),
        fixed_holds(b),
        point_of(a, a_weights) == point_of(b, b_weights),
        fallback.squared() != zero::<S>(),
        pair_push(
            (a, a_weights, a_previous, point_of(a, a_weights)),
            (b, b_weights, b_previous, point_of(b, b_weights)),
            minimum_distance,
            fallback,
        ).2,
    ensures
        ({
            let push = pair_push(
                (a, a_weights, a_previous, point_of(a, a_weights)),
                (b, b_weights, b_previous, point_of(b, b_weights)),
                minimum_distance,
                fallback,
            );
            let before = weighted_point(a_previous, a_weights).minus(
                weighted_point(b_previous, b_weights),
            );
            let lead = leading(Vec3::origin(), before, fallback);
            exists|normal: Vec3<S>|
                #[trigger] leads(normal, lead) && point_of(push.0, a_weights).minus(
                    point_of(push.1, b_weights),
                ) == normal.scaled(minimum_distance)
        }),
{
    lemma_rooted::<S>();
    let push = pair_push(
        (a, a_weights, a_previous, point_of(a, a_weights)),
        (b, b_weights, b_previous, point_of(b, b_weights)),
        minimum_distance,
        fallback,
    );
    let point = point_of(a, a_weights);
    let delta = point.minus(point);
    let before = weighted_point(a_previous, a_weights).minus(
        weighted_point(b_previous, b_weights),
    );
    let weight = inverse_weight(a, a_weights).plus(inverse_weight(b, b_weights));
    lemma_compare(weight, contact_epsilon());
    lemma_above_epsilon(weight);
    lemma_difference(point.x, point.x);
    lemma_difference(point.y, point.y);
    lemma_difference(point.z, point.z);
    lemma_zero(point.x);
    lemma_zero(point.y);
    lemma_zero(point.z);
    assert(delta == Vec3::<S>::origin());
    lemma_zero(zero::<S>());
    assert(delta.squared() == zero::<S>());
    lemma_length(delta);
    lemma_compare(contact_epsilon::<S>(), zero());
    lemma_take_nothing(minimum_distance);
    let normal = parting_normal(delta, before, fallback);
    lemma_push_leads(delta, before, fallback);
    lemma_pair_push_separates(
        a,
        a_weights,
        a_previous,
        b,
        b_weights,
        b_previous,
        minimum_distance,
        fallback,
    );
    let step = normal.scaled(minimum_distance);
    lemma_take_nothing(step.x);
    lemma_take_nothing(step.y);
    lemma_take_nothing(step.z);
    assert(leads(normal, leading(Vec3::origin(), before, fallback)));
}

/// A segment seen from a point.
proof fn lemma_seen_from_ball<S: Scalar>(sphere: Vec3<S>, start: Vec3<S>, way: Vec3<S>, part: S)
    requires
        exact::<S>(),
    ensures
        sphere.minus(start.plus(way.scaled(part))) == sphere.minus(start).plus(
            way.negated().scaled(part),
        ),
        way.negated().squared() == way.squared(),
        sphere.minus(start).inner(way.negated()).negated() == sphere.minus(start).inner(way),
{
    lemma_seen_coordinate(sphere.x, start.x, way.x, part);
    lemma_seen_coordinate(sphere.y, start.y, way.y, part);
    lemma_seen_coordinate(sphere.z, start.z, way.z, part);
    lemma_inner_negated(way, way.negated());
    lemma_inner_negated(way, way);
    lemma_inner_negated(sphere.minus(start), way);
    lemma_negation(way.squared(), way.squared());
    lemma_negation(sphere.minus(start).inner(way), way.squared());
}

proof fn lemma_seen_coordinate<S: Scalar>(sphere: S, start: S, way: S, part: S)
    requires
        exact::<S>(),
    ensures
        sphere.minus(start.plus(way.times(part))) == sphere.minus(start).plus(
            way.negated().times(part),
        ),
{
    lemma_take_two(sphere, start, way.times(part));
    lemma_difference(sphere.minus(start), way.times(part));
    lemma_negated_product(way, part);
}

/// The point of a rod that a ball is found to be closest to is the closest of all its points.
proof fn lemma_closest_to_ball<S: Scalar>(
    sphere: Vec3<S>,
    start: Vec3<S>,
    way: Vec3<S>,
    part: S,
)
    requires
        ordered::<S>(),
        zero::<S>().at_most(contact_epsilon()),
        zero::<S>().at_most(part),
        part.at_most(one()),
        contact_epsilon::<S>().below(way.squared()),
    ensures
        ({
            let t = closest_parameter(sphere, start, way);
            sphere.minus(start.plus(way.scaled(t))).squared().at_most(
                sphere.minus(start.plus(way.scaled(part))).squared(),
            )
        }),
{
    lemma_ordered_is_exact::<S>();
    let t = closest_parameter(sphere, start, way);
    lemma_compare(contact_epsilon(), way.squared());
    lemma_chain(zero(), contact_epsilon(), way.squared());
    lemma_compare(zero(), way.squared());
    lemma_seen_from_ball(sphere, start, way, t);
    lemma_seen_from_ball(sphere, start, way, part);
    lemma_closest_on_segment(sphere.minus(start), way.negated(), part);
}

/// Whether a push between a ball and any point of a net body can move one of them.
pub open spec fn can_part<S: Scalar>(ball: AffineBody<S>, body: AffineBody<S>) -> bool {
    &&& contact_epsilon::<S>().below(
        inverse_weight(ball, hub_center()).plus(inverse_weight(body, hub_center())),
    )
    &&& forall|part: S|
        zero::<S>().at_most(part) && part.at_most(one()) ==> contact_epsilon::<S>().below(
            inverse_weight(ball, hub_center()).plus(
                #[trigger] inverse_weight(
                    body,
                    interpolate_weights(collider_start(), collider_end(), part),
                ),
            ),
        )
}

/// The way along the part of a rod that collides.
pub open spec fn rod_way<S: Scalar>(body: AffineBody<S>) -> Vec3<S> {
    point_of(body, collider_end()).minus(point_of(body, collider_start()))
}

/// A vector whose square is zero is zero.
proof fn lemma_no_way<S: Scalar>(way: Vec3<S>)
    requires
        ordered::<S>(),
        way.squared() == zero::<S>(),
    ensures
        way == Vec3::<S>::origin(),
{
    lemma_ordered_is_exact::<S>();
    let (a, b, c) = (way.x.times(way.x), way.y.times(way.y), way.z.times(way.z));
    lemma_square(way.x);
    lemma_square(way.y);
    lemma_square(way.z);
    lemma_part_of_sum(a, b);
    lemma_part_of_sum(a.plus(b), c);
    lemma_compare(a.plus(b), zero());
    lemma_compare(c, zero());
    lemma_compare(a, zero());
    lemma_compare(b, zero());
    if way.x != zero::<S>() {
        lemma_no_product_is_zero(way.x, way.x);
    }
    if way.y != zero::<S>() {
        lemma_no_product_is_zero(way.y, way.y);
    }
    if way.z != zero::<S>() {
        lemma_no_product_is_zero(way.z, way.z);
    }
}

/// In exact arithmetic a ball that does not push a hub or rod, although one of them could be
/// pushed, is clear of it: of the centre of the hub, and of every point of the part of the rod
/// that collides. Of a rod that is shrunk to next to nothing, but not quite, the middle is
/// looked at alone.
pub proof fn lemma_unpushed_is_clear<S: Scalar>(
    bodies: Seq<AffineBody<S>>,
    previous: Seq<ControlPoints<S>>,
    ball: usize,
    body: usize,
    part: S,
)
    requires
        ordered::<S>(),
        zero::<S>().at_most(contact_epsilon()),
        ball < bodies.len(),
        body < bodies.len(),
        ball != body,
        can_part(bodies[ball as int], bodies[body as int]),
        !ball_net_push(
            bodies,
            previous,
            point_of(bodies[ball as int], hub_center()),
            ball,
            body,
        ).1,
        zero::<S>().at_most(part),
        part.at_most(one()),
    ensures
        ({
            let sphere = point_of(bodies[ball as int], hub_center());
            let other = bodies[body as int];
            let hub_distance = ball_radius::<S>().plus(hub_radius());
            let rod_distance = ball_radius::<S>().plus(rod_radius());
            &&& other.kind is Hub ==> hub_distance.times(hub_distance).at_most(
                apart(sphere, point_of(other, hub_center())),
            )
            &&& other.kind is Rod && (contact_epsilon::<S>().below(rod_way(other).squared())
                || rod_way(other).squared() == zero::<S>() || part == half::<S>())
                ==> rod_distance.times(rod_distance).at_most(
                apart(sphere, rod_point(other, part)),
            )
        }),
{
    lemma_ordered_is_exact::<S>();
    let sphere = point_of(bodies[ball as int], hub_center());
    let other = bodies[body as int];
    lemma_proxy_points(other);
    match other.kind {
        BodyKind::Hub { .. } => {
            let distance = ball_radius::<S>().plus(hub_radius());
            let gap = apart(sphere, point_of(other, hub_center()));
            lemma_compare(distance.times(distance), gap);
            lemma_compare(
                inverse_weight(bodies[ball as int], hub_center()).plus(
                    inverse_weight(other, hub_center()),
                ),
                contact_epsilon(),
            );
        },
        BodyKind::Rod => {
            let distance = ball_radius::<S>().plus(rod_radius());
            let start = point_of(other, collider_start());
            let way = rod_way(other);
            let t = closest_parameter(sphere, start, way);
            let raw = sphere.minus(start).inner(way).over(way.squared());
            lemma_half::<S>();
            lemma_clamped(raw);
            lemma_part_of_sum(ball_radius::<S>(), rod_radius());
            if point_outside_capsule_bounds(sphere, start, way, distance) {
                lemma_far_from_capsule(sphere, start, way, distance, part);
            } else {
                let weights = interpolate_weights::<S>(collider_start(), collider_end(), t);
                let here = sphere.minus(start.plus(way.scaled(t))).squared();
                lemma_compare(
                    inverse_weight(bodies[ball as int], hub_center()).plus(
                        inverse_weight(other, weights),
                    ),
                    contact_epsilon(),
                );
                lemma_compare(distance.times(distance), here);
                if contact_epsilon::<S>().below(way.squared()) {
                    lemma_closest_to_ball(sphere, start, way, part);
                    lemma_chain(
                        distance.times(distance),
                        here,
                        apart(sphere, rod_point(other, part)),
                    );
                } else if way.squared() == zero::<S>() {
                    lemma_no_way(way);
                    lemma_zero(part);
                    lemma_zero(half::<S>());
                }
            }
        },
        BodyKind::Ball => {},
    }
}

/// In exact arithmetic a ball pushes nothing that it is clear of: what it pushes is a hub whose
/// centre, or a rod of which some point that collides, is too close to its centre.
pub proof fn lemma_pushed_was_close<S: Scalar>(
    bodies: Seq<AffineBody<S>>,
    previous: Seq<ControlPoints<S>>,
    ball: usize,
    body: usize,
)
    requires
        ordered::<S>(),
        ball < bodies.len(),
        body < bodies.len(),
        ball_net_push(
            bodies,
            previous,
            point_of(bodies[ball as int], hub_center()),
            ball,
            body,
        ).1,
    ensures
        ({
            let sphere = point_of(bodies[ball as int], hub_center());
            let other = bodies[body as int];
            let hub_distance = ball_radius::<S>().plus(hub_radius());
            let rod_distance = ball_radius::<S>().plus(rod_radius());
            &&& ball != body
            &&& !(other.kind is Ball)
            &&& other.kind is Hub ==> apart(sphere, point_of(other, hub_center())).below(
                hub_distance.times(hub_distance),
            )
            &&& other.kind is Rod ==> exists|part: S|
                zero::<S>().at_most(part) && part.at_most(one()) && apart(
                    sphere,
                    #[trigger] rod_point(other, part),
                ).below(rod_distance.times(rod_distance))
        }),
{
    lemma_ordered_is_exact::<S>();
    let sphere = point_of(bodies[ball as int], hub_center());
    let other = bodies[body as int];
    lemma_proxy_points(other);
    if other.kind is Hub {
        let distance = ball_radius::<S>().plus(hub_radius());
        lemma_compare(
            distance.times(distance),
            apart(sphere, point_of(other, hub_center())),
        );
    } else {
        let distance = ball_radius::<S>().plus(rod_radius());
        let start = point_of(other, collider_start());
        let way = rod_way(other);
        let t = closest_parameter(sphere, start, way);
        lemma_half::<S>();
        lemma_clamped(sphere.minus(start).inner(way).over(way.squared()));
        lemma_compare(distance.times(distance), apart(sphere, rod_point(other, t)));
    }
}

/// In exact arithmetic a ball just touches the hub or rod that it has pushed, unless their
/// points coincided: the centre of the hub, or a point of the part of the rod that collides.
pub proof fn lemma_pushed_touches<S: Scalar>(
    bodies: Seq<AffineBody<S>>,
    previous: Seq<ControlPoints<S>>,
    ball: usize,
    body: usize,
)
    requires
        rooted::<S>(),
        ball < bodies.len(),
        body < bodies.len(),
        ball != body,
        fixed_holds(bodies[ball as int]),
        fixed_holds(bodies[body as int]),
        can_part(bodies[ball as int], bodies[body as int]),
        ball_net_push(
            bodies,
            previous,
            point_of(bodies[ball as int], hub_center()),
            ball,
            body,
        ).1,
        contact_epsilon::<S>().below(
            apart(
                point_of(bodies[ball as int], hub_center()),
                point_of(bodies[body as int], hub_center()),
            ),
        ),
        forall|part: S|
            zero::<S>().at_most(part) && part.at_most(one()) ==> contact_epsilon::<S>().below(
                apart(
                    point_of(bodies[ball as int], hub_center()),
                    #[trigger] rod_point(bodies[body as int], part),
                ),
            ),
    ensures
        ({
            let after = ball_net_push(
                bodies,
                previous,
                point_of(bodies[ball as int], hub_center()),
                ball,
                body,
            ).0;
            let sphere = point_of(after[ball as int], hub_center());
            let hub_distance = ball_radius::<S>().plus(hub_radius());
            let rod_distance = ball_radius::<S>().plus(rod_radius());
            &&& bodies[body as int].kind is Hub ==> apart(
                sphere,
                point_of(after[body as int], hub_center()),
            ) == hub_distance.times(hub_distance)
            &&& bodies[body as int].kind is Rod ==> exists|part: S|
                zero::<S>().at_most(part) && part.at_most(one()) && apart(
                    sphere,
                    #[trigger] rod_point(after[body as int], part),
                ) == rod_distance.times(rod_distance)
        }),
{
    lemma_rooted::<S>();
    let sphere = point_of(bodies[ball as int], hub_center());
    let other = bodies[body as int];
    let after = ball_net_push(bodies, previous, sphere, ball, body).0;
    lemma_proxy_points(other);
    lemma_pushed_was_close(bodies, previous, ball, body);
    if other.kind is Hub {
        let distance = ball_radius::<S>().plus(hub_radius());
        lemma_pair_clears(
            bodies,
            previous,
            center_of(ball),
            center_of(body),
            distance,
            Vec3::y_unit(),
        );
    } else {
        let distance = ball_radius::<S>().plus(rod_radius());
        let start = point_of(other, collider_start());
        let way = rod_way(other);
        let t = closest_parameter(sphere, start, way);
        lemma_half::<S>();
        lemma_clamped(sphere.minus(start).inner(way).over(way.squared()));
        let weights = interpolate_weights::<S>(collider_start(), collider_end(), t);
        lemma_interpolated_point(other, collider_start(), collider_end(), t);
        lemma_interpolated_point(after[body as int], collider_start(), collider_end(), t);
        let gap = apart(sphere, rod_point(other, t));
        lemma_compare(distance.times(distance), gap);
        assert(contact_epsilon::<S>().below(apart(sphere, rod_point(other, t))));
        lemma_pair_clears(
            bodies,
            previous,
            center_of(ball),
            Attachment { body, weights },
            distance,
            Vec3::y_unit(),
        );
        assert(apart(
            point_of(after[ball as int], hub_center()),
            rod_point(after[body as int], t),
        ) == distance.times(distance));
    }
}

/// Two balls touch at two radii.
pub proof fn lemma_two_radii<S: Scalar>()
    requires
        exact::<S>(),
        S::fraction(2, 1) == one::<S>().plus(one()),
    ensures
        ball_pair_distance::<S>() == ball_radius::<S>().plus(ball_radius()),
{
    lemma_distribute_left(one(), one(), ball_radius::<S>());
    lemma_one(ball_radius::<S>());
}

/// The direction in which two balls part that coincide, now and before the step: along one of
/// the axes in turn.
pub open spec fn axis_in_turn<S: Scalar>(i: int, j: int) -> Vec3<S> {
    if (i + j) % 3 == 0 {
        Vec3 { x: one(), y: zero(), z: zero() }
    } else if (i + j) % 3 == 1 {
        Vec3 { x: zero(), y: one(), z: zero() }
    } else {
        Vec3 { x: zero(), y: zero(), z: one() }
    }
}

/// The contacts between balls come to every pair of them that is still to come: what they end
/// with is what the contacts after that of the pair make of bodies in which the pair has met.
pub proof fn lemma_every_pair_meets<S: Scalar>(
    bodies: Seq<AffineBody<S>>,
    previous: Seq<ControlPoints<S>>,
    balls: Seq<usize>,
    first: int,
    second: int,
    i: int,
    j: int,
)
    requires
        0 <= first < second,
        forall|k: int| 0 <= k < balls.len() ==> (#[trigger] balls[k]) < bodies.len(),
        i < j < balls.len(),
        first < i || (first == i && second <= j),
    ensures
        exists|met: Seq<AffineBody<S>>|
            {
                &&& only_moved(bodies, met)
                &&& ball_pairs_from(bodies, previous, balls, first, second) == ball_pairs_from(
                    #[trigger] pair_contact(
                        met,
                        previous,
                        Attachment { body: balls[i], weights: hub_center() },
                        Attachment { body: balls[j], weights: hub_center() },
                        ball_radius::<S>().times(S::fraction(2, 1)),
                        axis_in_turn(i, j),
                    ),
                    previous,
                    balls,
                    i,
                    j + 1,
                )
            },
    decreases balls.len() - first, balls.len() - second,
{
    if first == i && second == j {
        lemma_only_moved_itself(bodies);
        assert(ball_pairs_from(bodies, previous, balls, first, second) == ball_pairs_from(
            pair_contact(
                bodies,
                previous,
                Attachment { body: balls[i], weights: hub_center() },
                Attachment { body: balls[j], weights: hub_center() },
                ball_radius::<S>().times(S::fraction(2, 1)),
                axis_in_turn(i, j),
            ),
            previous,
            balls,
            i,
            j + 1,
        ));
    } else if second >= balls.len() {
        lemma_every_pair_meets(bodies, previous, balls, first + 1, first + 2, i, j);
    } else {
        let a = center_of::<S>(balls[first]);
        let b = center_of::<S>(balls[second]);
        let fallback = pair_fallback(((first + second) % 3) as usize);
        let next = pair_contact(bodies, previous, a, b, ball_pair_distance(), fallback);
        lemma_pair_contact_moves(
            bodies,
            previous,
            a,
            b,
            point_of(bodies[a.body as int], a.weights),
            point_of(bodies[b.body as int], b.weights),
            ball_pair_distance(),
            fallback,
        );
        lemma_every_pair_meets(next, previous, balls, first, second + 1, i, j);
        let met = choose|met: Seq<AffineBody<S>>|
            {
                &&& only_moved(next, met)
                &&& ball_pairs_from(next, previous, balls, first, second + 1) == ball_pairs_from(
                    #[trigger] pair_contact(
                        met,
                        previous,
                        Attachment { body: balls[i], weights: hub_center() },
                        Attachment { body: balls[j], weights: hub_center() },
                        ball_radius::<S>().times(S::fraction(2, 1)),
                        axis_in_turn(i, j),
                    ),
                    previous,
                    balls,
                    i,
                    j + 1,
                )
            };
        lemma_only_moved_transitive(bodies, next, met);
    }
}

proof fn lemma_only_moved_itself<S: Scalar>(bodies: Seq<AffineBody<S>>)
    ensures
        only_moved(bodies, bodies),
{
}

/// The contacts of balls with a net come to every ball and every body of the net that are
/// still to come: what they end with is what the contacts after that of the two make of bodies
/// in which the two have met.
pub proof fn lemma_every_body_meets<S: Scalar>(
    bodies: Seq<AffineBody<S>>,
    previous: Seq<ControlPoints<S>>,
    balls: Seq<usize>,
    net: int,
    number: int,
    body: int,
    k: int,
    met_body: int,
)
    requires
        0 <= number,
        0 <= body,
        0 <= net <= bodies.len() <= usize::MAX,
        forall|b: int| 0 <= b < balls.len() ==> (#[trigger] balls[b]) < bodies.len(),
        k < balls.len(),
        0 <= met_body < net,
        number < k || (number == k && body <= met_body),
    ensures
        exists|met: Seq<AffineBody<S>>|
            {
                &&& only_moved(bodies, met)
                &&& ball_net_contacts_from(bodies, previous, balls, net, number, body)
                    == ball_net_contacts_from(
                    #[trigger] ball_net_contact(met, previous, balls[k], met_body as usize),
                    previous,
                    balls,
                    net,
                    k,
                    met_body + 1,
                )
            },
    decreases balls.len() - number, net - body,
{
    if number == k && body == met_body {
        lemma_only_moved_itself(bodies);
        assert(ball_net_contacts_from(bodies, previous, balls, net, number, body)
            == ball_net_contacts_from(
            ball_net_contact(bodies, previous, balls[k], met_body as usize),
            previous,
            balls,
            net,
            k,
            met_body + 1,
        ));
    } else if body >= net {
        lemma_every_body_meets(bodies, previous, balls, net, number + 1, 0, k, met_body);
    } else {
        let next = ball_net_contact(bodies, previous, balls[number], body as usize);
        lemma_net_contact_moves(bodies, previous, balls[number], body as usize);
        lemma_every_body_meets(next, previous, balls, net, number, body + 1, k, met_body);
        let met = choose|met: Seq<AffineBody<S>>|
            {
                &&& only_moved(next, met)
                &&& ball_net_contacts_from(next, previous, balls, net, number, body + 1)
                    == ball_net_contacts_from(
                    #[trigger] ball_net_contact(met, previous, balls[k], met_body as usize),
                    previous,
                    balls,
                    net,
                    k,
                    met_body + 1,
                )
            };
        lemma_only_moved_transitive(bodies, next, met);
    }
}

proof fn lemma_net_contact_moves<S: Scalar>(
    bodies: Seq<AffineBody<S>>,
    previous: Seq<ControlPoints<S>>,
    ball: usize,
    body: usize,
)
    requires
        ball < bodies.len(),
        body < bodies.len(),
    ensures
        only_moved(bodies, ball_net_contact(bodies, previous, ball, body)),
{
    let sphere = point_of(bodies[ball as int], hub_center());
    let other = bodies[body as int];
    let start = point_of(other, collider_start());
    let t = closest_parameter(sphere, start, rod_way(other));
    let weights = interpolate_weights::<S>(collider_start(), collider_end(), t);
    lemma_pair_contact_moves(
        bodies,
        previous,
        center_of(ball),
        center_of(body),
        sphere,
        point_of(other, hub_center()),
        ball_hub_distance(),
        Vec3::y_unit(),
    );
    lemma_pair_contact_moves(
        bodies,
        previous,
        center_of(ball),
        Attachment { body, weights },
        sphere,
        point_of(other, weights),
        ball_rod_distance(),
        Vec3::y_unit(),
    );
}

} // verus!
