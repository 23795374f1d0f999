//! What the direct solve takes for granted of bodies and joints, as a check.

use crate::body::{hub_center, rod_end, rod_start, AffineBody, BodyKind, Weights};
use crate::grid::{
    end_hub, horizontal_total, hub_total, joint_hub, lemma_counts, lemma_index_row,
    lemma_joint_is_neighbor, start_hub,
};
use crate::joints::BallJoint;
use crate::net::{fits, net_joint, net_joints};
use crate::order::{lemma_compare, ordered};
use crate::scalar::{half, quarter, zero, Scalar};
use crate::scene::DemoScene;
use crate::simulation::{laid_out, layout};
use vstd::prelude::*;

verus! {

/// Whether two numbers are neither above nor below each other.
#[verifier::allow_in_spec]
pub fn same_value<S: Scalar>(first: S, second: S) -> (result: bool)
    returns
        (first.at_most(second) && second.at_most(first)),
{
    first.le(second) && second.le(first)
}

/// Whether two points of a body have the same weights.
#[verifier::allow_in_spec]
pub fn same_weights<S: Scalar>(first: Weights<S>, second: Weights<S>) -> (result: bool)
    returns
        (same_value(first.w0, second.w0) && same_value(first.w1, second.w1) && same_value(
            first.w2,
            second.w2,
        ) && same_value(first.w3, second.w3)),
{
    same_value(first.w0, second.w0) && same_value(first.w1, second.w1) && same_value(
        first.w2,
        second.w2,
    ) && same_value(first.w3, second.w3)
}

/// Whether a pair of joints holds the rod of its number at both ends, the start on one hub and
/// the end on another.
pub open spec fn pair_holds_rod<S: Scalar>(
    bodies: Seq<AffineBody<S>>,
    first: BallJoint<S>,
    second: BallJoint<S>,
    n: int,
    pair: int,
) -> bool {
    let rod = hub_total(n) + pair;
    &&& first.a.body == rod
    &&& same_weights(first.a.weights, rod_start())
    &&& second.a.body == rod
    &&& same_weights(second.a.weights, rod_end())
    &&& first.b.body == start_hub(n, pair)
    &&& second.b.body == end_hub(n, pair)
    &&& same_weights(first.b.weights, hub_center())
    &&& same_weights(second.b.weights, hub_center())
    &&& rod < bodies.len()
    &&& bodies[rod].kind is Rod
    &&& !bodies[rod].fixed
    &&& first.b.body < bodies.len()
    &&& bodies[first.b.body as int].kind is Hub
    &&& second.b.body < bodies.len()
    &&& bodies[second.b.body as int].kind is Hub
}

/// Whether bodies and joints are as the direct solve expects: the hubs of a square net first
/// and no hub after them, then a free rod for every pair of joints, each held at its ends by
/// the hubs of its place in the net, and no rod without its pair.
pub open spec fn direct_solver_topology<S: Scalar>(
    bodies: Seq<AffineBody<S>>,
    joints: Seq<BallJoint<S>>,
    n: int,
) -> bool {
    &&& hub_total(n) <= bodies.len()
    &&& forall|i: int| 0 <= i < hub_total(n) ==> (#[trigger] bodies[i]).kind is Hub
    &&& hub_total(n) < bodies.len() ==> !(bodies[hub_total(n)].kind is Hub)
    &&& joints.len() % 2 == 0
    &&& forall|pair: int|
        #![trigger joints[2 * pair]]
        0 <= pair < joints.len() as int / 2 ==> pair_holds_rod(
            bodies,
            joints[2 * pair],
            joints[2 * pair + 1],
            n,
            pair,
        )
    &&& forall|i: int|
        0 <= i < bodies.len() && (#[trigger] bodies[i]).kind is Rod ==> hub_total(n) <= i
            < hub_total(n) + joints.len() as int / 2
}

fn is_hub<S: Scalar>(body: &AffineBody<S>) -> (result: bool)
    ensures
        result == (body.kind is Hub),
{
    match body.kind {
        BodyKind::Hub { .. } => true,
        BodyKind::Rod | BodyKind::Ball => false,
    }
}

fn is_rod<S: Scalar>(body: &AffineBody<S>) -> (result: bool)
    ensures
        result == (body.kind is Rod),
{
    match body.kind {
        BodyKind::Rod => true,
        BodyKind::Hub { .. } | BodyKind::Ball => false,
    }
}

fn check_pair<S: Scalar>(
    bodies: &[AffineBody<S>],
    first: &BallJoint<S>,
    second: &BallJoint<S>,
    grid_size: usize,
    pair: usize,
) -> (result: bool)
    requires
        grid_size >= 2,
        hub_total(grid_size as int) + pair <= usize::MAX,
    ensures
        result == pair_holds_rod(bodies@, *first, *second, grid_size as int, pair as int),
{
    let ghost n = grid_size as int;
    proof {
        lemma_counts(n);
        if pair < horizontal_total(n) {
            lemma_index_row(n - 1, n, pair as int);
            let row = pair as int / (n - 1);
            assert(0 <= row * n && row * n + n <= n * n) by (nonlinear_arith)
                requires
                    0 <= row < n,
                    n >= 2,
            ;
        }
    }
    let hubs: usize = grid_size * grid_size;
    let horizontal: usize = grid_size * (grid_size - 1);
    let rod: usize = hubs + pair;
    let (start, end): (usize, usize) = if pair < horizontal {
        let row: usize = pair / (grid_size - 1);
        let column: usize = pair % (grid_size - 1);
        let start: usize = row * grid_size + column;
        (start, start + 1)
    } else {
        (pair - horizontal, pair - horizontal + grid_size)
    };
    first.a.body == rod && same_weights(first.a.weights, rod_start()) && second.a.body == rod
        && same_weights(second.a.weights, rod_end()) && first.b.body == start && second.b.body
        == end && same_weights(first.b.weights, hub_center()) && same_weights(
        second.b.weights,
        hub_center(),
    ) && rod < bodies.len() && is_rod(&bodies[rod]) && !bodies[rod].fixed && first.b.body
        < bodies.len() && is_hub(&bodies[first.b.body]) && second.b.body < bodies.len() && is_hub(
        &bodies[second.b.body],
    )
}

/// Checks what the direct solve takes for granted.
pub fn debug_validate_direct_solver_topology<S: Scalar>(
    bodies: &[AffineBody<S>],
    joints: &[BallJoint<S>],
    grid_size: usize,
) -> (result: bool)
    requires
        grid_size >= 2,
        hub_total(grid_size as int) + joints@.len() <= usize::MAX,
    ensures
        result == direct_solver_topology(bodies@, joints@, grid_size as int),
{
    let ghost n = grid_size as int;
    proof {
        lemma_counts(n);
    }
    let hubs: usize = grid_size * grid_size;
    let count: usize = bodies.len();
    if hubs > count || joints.len() % 2 != 0 {
        return false;
    }
    let pairs: usize = joints.len() / 2;
    let mut index: usize = 0;
    while index < count
        invariant
            index <= count,
            count == bodies@.len(),
            n == grid_size,
            hubs == hub_total(n),
            hubs <= count,
            pairs == joints@.len() as int / 2,
            hubs + joints@.len() <= usize::MAX,
            forall|i: int|
                0 <= i < index && i < hub_total(n) ==> (#[trigger] bodies@[i]).kind is Hub,
            index > hubs ==> !(bodies@[hub_total(n)].kind is Hub),
            forall|i: int|
                0 <= i < index && (#[trigger] bodies@[i]).kind is Rod ==> hub_total(n) <= i
                    < hub_total(n) + pairs,
        decreases count - index,
    {
        let hub = is_hub(&bodies[index]);
        let rod = is_rod(&bodies[index]);
        if index < hubs && !hub || index == hubs && hub || rod && index >= hubs + pairs {
            return false;
        }
        index = index + 1;
    }
    let mut pair: usize = 0;
    while pair < pairs
        invariant
            pair <= pairs,
            grid_size >= 2,
            n == grid_size,
            hubs == hub_total(n),
            pairs == joints@.len() as int / 2,
            hubs + joints@.len() <= usize::MAX,
            forall|p: int|
                #![trigger joints@[2 * p]]
                0 <= p < pair ==> pair_holds_rod(
                    bodies@,
                    joints@[2 * p],
                    joints@[2 * p + 1],
                    n,
                    p,
                ),
        decreases pairs - pair,
    {
        assert(joints@.len() == joints.len());
        if !check_pair(bodies, &joints[2 * pair], &joints[2 * pair + 1], grid_size, pair) {
            assert(!pair_holds_rod(
                bodies@,
                joints@[2 * pair as int],
                joints@[2 * pair + 1],
                n,
                pair as int,
            ));
            return false;
        }
        pair = pair + 1;
    }
    true
}

/// The bodies and joints of every demo are as the direct solve expects, in any arithmetic
/// whose weights equal themselves.
pub proof fn lemma_demo_topology<S: Scalar>(scene: DemoScene, grid_size: usize, bodies: Seq<AffineBody<S>>)
    requires
        grid_size >= 2,
        fits(grid_size),
        laid_out(scene, grid_size as int, bodies),
        zero::<S>().at_most(zero()),
        quarter::<S>().at_most(quarter()),
        half::<S>().at_most(half()),
    ensures
        direct_solver_topology(bodies, net_joints::<S>(grid_size as int), grid_size as int),
{
    let n = grid_size as int;
    let joints = net_joints::<S>(n);
    lemma_counts(n);
    assert forall|i: int| 0 <= i < hub_total(n) implies (#[trigger] bodies[i]).kind is Hub by {
        assert((bodies[i].kind, bodies[i].fixed) == layout(scene, n, i));
    }
    if hub_total(n) < bodies.len() {
        let next = hub_total(n);
        assert((bodies[next].kind, bodies[next].fixed) == layout(scene, n, next));
    }
    assert forall|i: int|
        0 <= i < bodies.len() && (#[trigger] bodies[i]).kind is Rod implies hub_total(n) <= i
        < hub_total(n) + joints.len() as int / 2 by {
        assert((bodies[i].kind, bodies[i].fixed) == layout(scene, n, i));
    }
    assert forall|pair: int|
        #![trigger joints[2 * pair]]
        0 <= pair < joints.len() as int / 2 implies pair_holds_rod(
        bodies,
        joints[2 * pair],
        joints[2 * pair + 1],
        n,
        pair,
    ) by {
        assert(joints[2 * pair] == net_joint::<S>(n, 2 * pair));
        assert(joints[2 * pair + 1] == net_joint::<S>(n, 2 * pair + 1));
        lemma_joint_is_neighbor(n, 2 * pair);
        lemma_joint_is_neighbor(n, 2 * pair + 1);
        let rod = hub_total(n) + pair;
        assert((bodies[rod].kind, bodies[rod].fixed) == layout(scene, n, rod));
        let start = start_hub(n, pair);
        let end = end_hub(n, pair);
        assert(joint_hub(n, 2 * pair) == start);
        assert(joint_hub(n, 2 * pair + 1) == end);
        assert((bodies[start].kind, bodies[start].fixed) == layout(scene, n, start));
        assert((bodies[end].kind, bodies[end].fixed) == layout(scene, n, end));
    }
}

/// In an arithmetic with an order, what passes the check are the first joints of the net of
/// its size, between free rods and hubs that are there.
pub proof fn lemma_checked_is_net<S: Scalar>(
    bodies: Seq<AffineBody<S>>,
    joints: Seq<BallJoint<S>>,
    n: int,
    joint: int,
)
    requires
        ordered::<S>(),
        direct_solver_topology(bodies, joints, n),
        0 <= joint < joints.len(),
    ensures
        joints[joint] == net_joint::<S>(n, joint),
        joints[joint].a.body < bodies.len(),
        bodies[joints[joint].a.body as int].kind is Rod,
        !bodies[joints[joint].a.body as int].fixed,
        joints[joint].b.body < bodies.len(),
        bodies[joints[joint].b.body as int].kind is Hub,
        joints.len() % 2 == 0,
        forall|i: int|
            0 <= i < bodies.len() && (#[trigger] bodies[i]).kind is Rod ==> hub_total(n) <= i
                < hub_total(n) + joints.len() as int / 2,
        forall|i: int| 0 <= i < hub_total(n) ==> (#[trigger] bodies[i]).kind is Hub,
{
    let pair = joint / 2;
    let (first, second) = (joints[2 * pair], joints[2 * pair + 1]);
    assert(pair_holds_rod(bodies, first, second, n, pair));
    lemma_same_weights(first.a.weights, rod_start());
    lemma_same_weights(second.a.weights, rod_end());
    lemma_same_weights(first.b.weights, hub_center());
    lemma_same_weights(second.b.weights, hub_center());
    assert(joint == 2 * pair || joint == 2 * pair + 1);
}

proof fn lemma_same_weights<S: Scalar>(first: Weights<S>, second: Weights<S>)
    requires
        ordered::<S>(),
        same_weights(first, second),
    ensures
        first == second,
{
    lemma_compare(first.w0, second.w0);
    lemma_compare(first.w1, second.w1);
    lemma_compare(first.w2, second.w2);
    lemma_compare(first.w3, second.w3);
}

} // verus!
