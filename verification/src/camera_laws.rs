//! In exact arithmetic the camera stands as many times further away as the net is wider, never
//! closer, and always in the same direction.

use crate::camera::{camera_at, default_camera, distance_factor, target_depth};
use crate::constants::{grid_spacing, DEFAULT_GRID_SIZE};
use crate::field::{
    exact, lemma_commute, lemma_count, lemma_difference, lemma_negated_product,
    lemma_negation, lemma_one, lemma_quotient, lemma_reciprocal, lemma_take_nothing, lemma_undo,
};
use crate::net::{node_position, predecessor, span_of};
use crate::order::{lemma_add_both, lemma_chain, lemma_compare, lemma_scale_both, lemma_sign};
use crate::rotation_laws::{
    lemma_equal_squares, lemma_exchange_pairs, lemma_length, lemma_reciprocal_positive,
    lemma_reciprocal_product, lemma_rooted, lemma_scaled_squared, lemma_stretched_normal, rooted,
};
use crate::scalar::{half, one, zero, Scalar};
use crate::scene::DemoScene;
use crate::simulation::Setup;
use crate::span_laws::{lemma_half_behind, lemma_net_lies};
use crate::vector::Vec3;
use vstd::prelude::*;

verus! {

/// The length of a stretched vector.
proof fn lemma_stretched_length<S: Scalar>(v: Vec3<S>, c: S)
    requires
        rooted::<S>(),
        zero::<S>().at_most(c),
    ensures
        v.scaled(c).squared().root() == v.squared().root().times(c),
{
    lemma_rooted::<S>();
    let length = v.squared().root();
    let stretched = v.scaled(c).squared().root();
    lemma_scaled_squared(v, c);
    lemma_length(v);
    lemma_length(v.scaled(c));
    lemma_sign(length, c);
    lemma_exchange_pairs(length, c, length, c);
    lemma_compare(stretched, length.times(c));
    if stretched.at_most(length.times(c)) {
        lemma_equal_squares(stretched, length.times(c));
    } else {
        lemma_equal_squares(length.times(c), stretched);
    }
}

/// The camera looks at its target from the direction, and as many times the distance, in which
/// it stands before the default net.
pub proof fn lemma_camera_stands_back<S: Scalar>(scene: DemoScene, depth: S, scale: S)
    requires
        rooted::<S>(),
        zero::<S>().below(scale),
    ensures
        ({
            let base = default_camera::<S>(scene);
            let camera = camera_at(scene, depth, scale);
            let near = base.position.minus(base.target);
            let far = camera.position.minus(camera.target);
            &&& camera.target == (Vec3 { z: depth, ..base.target })
            &&& far.squared().root() == near.squared().root().times(scale)
            &&& far.has_direction() == near.has_direction()
            &&& near.has_direction() ==> far.normal() == near.normal()
        }),
{
    lemma_rooted::<S>();
    let base = default_camera::<S>(scene);
    let camera = camera_at(scene, depth, scale);
    let near = base.position.minus(base.target);
    let step = near.scaled(scale);
    lemma_undo(step.x, camera.target.x);
    lemma_undo(step.y, camera.target.y);
    lemma_undo(step.z, camera.target.z);
    lemma_compare(zero(), scale);
    lemma_stretched_length(near, scale);
    lemma_stretched_normal(near, scale);
}

/// Whole numbers are in order.
proof fn lemma_counts_in_order<S: Scalar>(first: usize, second: usize)
    requires
        rooted::<S>(),
        first <= second,
    ensures
        S::count(first).at_most(S::count(second)),
    decreases second - first,
{
    lemma_rooted::<S>();
    lemma_compare(S::count(first), S::count(second));
    if first < second {
        let before = (second - 1) as usize;
        lemma_counts_in_order::<S>(first, before);
        lemma_count::<S>(before);
        lemma_compare(zero(), one::<S>());
        lemma_take_nothing(S::count(before));
        lemma_add_both(zero(), one::<S>(), S::count(before));
        lemma_chain(S::count(first), S::count(before), S::count(second));
    }
}

/// The ratio of the widths of two nets is the ratio of their gaps.
proof fn lemma_ratio<S: Scalar>(a: S, b: S, g: S)
    requires
        exact::<S>(),
        b != zero::<S>(),
        g != zero::<S>(),
    ensures
        a.times(g).over(b.times(g)) == a.over(b),
{
    let (i, j) = (one::<S>().over(b), one::<S>().over(g));
    lemma_reciprocal(a.times(g), b.times(g));
    lemma_reciprocal_product(b, g);
    lemma_exchange_pairs(a, g, i, j);
    lemma_quotient(one(), g);
    lemma_one(a.times(i));
    lemma_reciprocal(a, b);
}

/// How much further away the camera stands: the ratio of the gaps of the net to those of the
/// default net, but never less than one, and one for no wider net.
pub proof fn lemma_distance_factor<S: Scalar>(grid_size: usize)
    requires
        rooted::<S>(),
        S::count(0) == zero::<S>(),
        zero::<S>().below(grid_spacing()),
    ensures
        one::<S>().at_most(distance_factor(grid_size)),
        grid_size <= DEFAULT_GRID_SIZE ==> distance_factor::<S>(grid_size) == one::<S>(),
        grid_size >= DEFAULT_GRID_SIZE ==> distance_factor::<S>(grid_size) == S::count(
            predecessor(grid_size),
        ).over(S::count(predecessor(DEFAULT_GRID_SIZE))),
{
    lemma_rooted::<S>();
    let gaps = predecessor(grid_size);
    let default_gaps = predecessor(DEFAULT_GRID_SIZE);
    let (a, b) = (S::count(gaps), S::count(default_gaps));
    let g = grid_spacing::<S>();
    let ratio = span_of::<S>(grid_size).over(span_of::<S>(DEFAULT_GRID_SIZE));
    lemma_compare(zero(), g);
    lemma_compare(one(), ratio);
    lemma_compare(one::<S>(), one());
    lemma_count::<S>(0);
    lemma_take_nothing(one::<S>());
    lemma_counts_in_order::<S>(1, default_gaps);
    lemma_compare(zero(), one::<S>());
    lemma_chain(zero(), one(), b);
    lemma_compare(zero(), b);
    if b == zero::<S>() {
        lemma_compare(one(), b);
    }
    lemma_ratio(a, b, g);
    let inverse = one::<S>().over(b);
    lemma_reciprocal_positive(b);
    lemma_compare(zero(), inverse);
    lemma_reciprocal(a, b);
    lemma_reciprocal(b, b);
    lemma_quotient(one(), b);
    if grid_size <= DEFAULT_GRID_SIZE {
        lemma_counts_in_order::<S>(gaps, default_gaps);
        lemma_scale_both(a, b, inverse);
    }
    if grid_size >= DEFAULT_GRID_SIZE {
        lemma_counts_in_order::<S>(default_gaps, gaps);
        lemma_scale_both(b, a, inverse);
    }
}

/// In exact arithmetic the camera looks at the middle of a net that catches balls, at the line
/// of the cylinder under a draped net, and at a point 0.275 in front of the middle of a net
/// that only hangs, however wide the net is.
pub proof fn lemma_camera_target<S: Scalar>(setup: Setup<S>)
    requires
        exact::<S>(),
        S::count(0) == zero::<S>(),
        setup.well_formed(),
    ensures
        ({
            let end = (setup.grid_size - 1) as usize;
            let front = node_position::<S>(setup.scene, setup.grid_size, 0, 0);
            let back = node_position::<S>(setup.scene, setup.grid_size, end, 0);
            let middle = front.z.plus(back.z).times(half());
            let depth = target_depth::<S>(setup.scene, setup.grid_size);
            match setup.scene {
                DemoScene::JointGrid => {
                    &&& depth.minus(middle) == S::fraction(275, 1000)
                    &&& depth.plus(
                        S::count(end).times(S::fraction(55, 100)).times(half()),
                    ) == S::fraction(275, 1000)
                },
                DemoScene::CylinderDrape => setup.cylinder is Some && depth
                    == setup.cylinder->0.origin.z,
                DemoScene::FallingBalls => depth == middle,
            }
        }),
{
    let width = span_of::<S>(setup.grid_size);
    let part = width.times(half());
    lemma_net_lies::<S>(setup.scene, setup.grid_size, 0);
    lemma_half_behind(width, target_depth::<S>(setup.scene, setup.grid_size));
    lemma_negated_product(width, half());
    lemma_commute(part.negated(), S::fraction(275, 1000));
    lemma_difference(S::fraction(275, 1000), part);
    lemma_undo(S::fraction(275, 1000), part);
}

/// Where the camera stands at a distance from what it looks at, in each demo: in x, to the
/// right; in y, above; in z, in front. It looks at a point on the plane that halves the net.
pub proof fn lemma_camera_stands<S: Scalar>(scene: DemoScene, depth: S, scale: S)
    requires
        exact::<S>(),
    ensures
        ({
            let camera = camera_at(scene, depth, scale);
            let away = camera.position.minus(camera.target);
            &&& camera.target.x == zero::<S>()
            &&& camera.target.z == depth
            &&& camera.target.y == (match scene {
                DemoScene::JointGrid => S::fraction(7, 10),
                DemoScene::CylinderDrape => S::fraction(16, 10),
                DemoScene::FallingBalls => S::fraction(18, 10),
            })
            &&& away.x == (match scene {
                DemoScene::FallingBalls => S::fraction(74, 10),
                _ => S::fraction(72, 10),
            }).times(scale)
            &&& away.y == (match scene {
                DemoScene::JointGrid => S::fraction(46, 10).minus(S::fraction(7, 10)),
                DemoScene::CylinderDrape => S::fraction(5, 1).minus(S::fraction(16, 10)),
                DemoScene::FallingBalls => S::fraction(57, 10).minus(S::fraction(18, 10)),
            }).times(scale)
            &&& away.z == (match scene {
                DemoScene::JointGrid => S::fraction(105, 10).plus(S::fraction(22, 10)),
                DemoScene::CylinderDrape => S::fraction(105, 10).plus(S::fraction(23, 10)),
                DemoScene::FallingBalls => S::fraction(88, 10),
            }).times(scale)
        }),
{
    let base = default_camera::<S>(scene);
    let camera = camera_at(scene, depth, scale);
    let step = base.position.minus(base.target).scaled(scale);
    lemma_undo(step.x, camera.target.x);
    lemma_undo(step.y, camera.target.y);
    lemma_undo(step.z, camera.target.z);
    lemma_take_nothing(base.position.x);
    lemma_take_nothing(base.position.z);
    lemma_difference(base.position.z, base.target.z);
    lemma_negation(S::fraction(22, 10), zero());
    lemma_negation(S::fraction(23, 10), zero());
}

} // verus!
