//! The joint residuals of a net and what they add up to at its hubs.

use crate::grid::{
    down_joint, horizontal_total, hub_total, joint_hub, joint_total, left_joint, lemma_counts,
    lemma_hub_joints, lemma_in_row, lemma_index_row, lemma_joint_hub_horizontal, lemma_joint_hub_vertical,
    lemma_joint_is_neighbor,
    lemma_row_index, right_joint, up_joint,
};
use crate::scalar::Scalar;
use crate::vector::Vec3;
use vstd::prelude::*;

verus! {

/// The sum of a term over the joints of a hub, in the order left, right, up, down, starting
/// from zero. Hubs at the border of the net have fewer joints.
pub open spec fn neighbor_sum<S: Scalar>(n: int, hub: int, term: spec_fn(int) -> Vec3<S>) -> Vec3<S> {
    let row = hub / n;
    let column = hub % n;
    let none = Vec3::<S>::origin();
    let left = if column > 0 {
        none.plus(term(left_joint(n, row, column)))
    } else {
        none
    };
    let right = if column + 1 < n {
        left.plus(term(right_joint(n, row, column)))
    } else {
        left
    };
    let up = if row > 0 {
        right.plus(term(up_joint(n, row, column)))
    } else {
        right
    };
    if row + 1 < n {
        up.plus(term(down_joint(n, row, column)))
    } else {
        up
    }
}

/// How far the rod end of a joint is from the centre of its hub.
pub open spec fn joint_residual<S: Scalar>(
    endpoints: Seq<Vec3<S>>,
    centers: Seq<Vec3<S>>,
    n: int,
    joint: int,
) -> Vec3<S> {
    endpoints[joint].minus(centers[joint_hub(n, joint)])
}

/// The residuals of all joints.
pub open spec fn joint_residuals<S: Scalar>(
    endpoints: Seq<Vec3<S>>,
    centers: Seq<Vec3<S>>,
    n: int,
) -> Seq<Vec3<S>> {
    Seq::new(endpoints.len(), |joint: int| joint_residual(endpoints, centers, n, joint))
}

/// How far a hub moves: the sum of its residuals, scaled.
pub open spec fn hub_delta<S: Scalar>(
    endpoints: Seq<Vec3<S>>,
    centers: Seq<Vec3<S>>,
    scale: Seq<S>,
    n: int,
    hub: int,
) -> Vec3<S> {
    neighbor_sum(
        n,
        hub,
        |joint: int| joint_residual(endpoints, centers, n, joint),
    ).scaled(scale[hub])
}

/// How far each hub moves.
pub open spec fn hub_deltas<S: Scalar>(
    endpoints: Seq<Vec3<S>>,
    centers: Seq<Vec3<S>>,
    scale: Seq<S>,
    n: int,
) -> Seq<Vec3<S>> {
    Seq::new(centers.len(), |hub: int| hub_delta(endpoints, centers, scale, n, hub))
}

/// The residual sum of the hub in a column of one row, from the row's own rods, the rods
/// above it and those below it.
pub open spec fn row_residual_sum<S: Scalar>(
    horizontal: Seq<Vec3<S>>,
    up: Seq<Vec3<S>>,
    down: Seq<Vec3<S>>,
    centers: Seq<Vec3<S>>,
    has_up: bool,
    has_down: bool,
    column: int,
) -> Vec3<S> {
    let center = centers[column];
    let none = Vec3::<S>::origin();
    let left_sum = if column > 0 {
        none.plus(horizontal[2 * (column - 1) + 1].minus(center))
    } else {
        none
    };
    let right_sum = if column + 1 < centers.len() {
        left_sum.plus(horizontal[2 * column].minus(center))
    } else {
        left_sum
    };
    let up_sum = if has_up {
        right_sum.plus(up[2 * column + 1].minus(center))
    } else {
        right_sum
    };
    if has_down {
        up_sum.plus(down[2 * column].minus(center))
    } else {
        up_sum
    }
}

/// Turns the rod ends of one row of hubs into residuals and its hub centres into hub
/// movements, in one walk along the row. The rods above end at the row and those below start
/// at it; the other ends of both stay.
pub fn gather_joint_residual_row<S: Scalar, const HAS_UP: bool, const HAS_DOWN: bool>(
    horizontal: &mut [Vec3<S>],
    up: &mut [Vec3<S>],
    down: &mut [Vec3<S>],
    hub: &mut [Vec3<S>],
    hub_delta_scale: &[S],
)
    requires
        old(hub)@.len() >= 2,
        old(horizontal)@.len() == 2 * (old(hub)@.len() - 1),
        HAS_UP ==> old(up)@.len() == 2 * old(hub)@.len(),
        HAS_DOWN ==> old(down)@.len() == 2 * old(hub)@.len(),
        hub_delta_scale@.len() == old(hub)@.len(),
    ensures
        final(horizontal)@.len() == old(horizontal)@.len(),
        final(up)@.len() == old(up)@.len(),
        final(down)@.len() == old(down)@.len(),
        final(hub)@.len() == old(hub)@.len(),
        forall|k: int|
            0 <= k < old(horizontal)@.len() ==> (#[trigger] final(horizontal)@[k]) == old(
                horizontal,
            )@[k].minus(old(hub)@[(k + 1) / 2]),
        forall|k: int|
            0 <= k < old(up)@.len() ==> (#[trigger] final(up)@[k]) == (if HAS_UP && k % 2 == 1 {
                old(up)@[k].minus(old(hub)@[k / 2])
            } else {
                old(up)@[k]
            }),
        forall|k: int|
            0 <= k < old(down)@.len() ==> (#[trigger] final(down)@[k]) == (if HAS_DOWN && k % 2
                == 0 {
                old(down)@[k].minus(old(hub)@[k / 2])
            } else {
                old(down)@[k]
            }),
        forall|column: int|
            0 <= column < old(hub)@.len() ==> (#[trigger] final(hub)@[column]) == row_residual_sum(
                old(horizontal)@,
                old(up)@,
                old(down)@,
                old(hub)@,
                HAS_UP,
                HAS_DOWN,
                column,
            ).scaled(hub_delta_scale@[column]),
{
    let grid_size: usize = hub.len();
    assert(horizontal@.len() == horizontal.len());
    assert(up@.len() == up.len());
    assert(down@.len() == down.len());
    let first_center = hub[0];
    let right_residual = horizontal[0].sub(first_center);
    horizontal[0] = right_residual;
    let mut current_center = hub[1];
    let mut carried_left_residual = horizontal[1].sub(current_center);
    horizontal[1] = carried_left_residual;
    let mut residual_sum = Vec3::zero().add(right_residual);
    if HAS_UP {
        let up_residual = up[1].sub(first_center);
        up[1] = up_residual;
        residual_sum = residual_sum.add(up_residual);
    }
    if HAS_DOWN {
        let down_residual = down[0].sub(first_center);
        down[0] = down_residual;
        residual_sum = residual_sum.add(down_residual);
    }
    hub[0] = residual_sum.scale(hub_delta_scale[0]);
    let mut column: usize = 1;
    while column < grid_size - 1
        invariant
            1 <= column <= grid_size - 1,
            grid_size == old(hub)@.len(),
            2 * grid_size <= usize::MAX + 2,
            hub@.len() == grid_size,
            horizontal@.len() == 2 * (grid_size - 1),
            horizontal@.len() == old(horizontal)@.len(),
            up@.len() == old(up)@.len(),
            down@.len() == old(down)@.len(),
            HAS_UP ==> up@.len() == 2 * grid_size,
            HAS_DOWN ==> down@.len() == 2 * grid_size,
            hub_delta_scale@.len() == grid_size,
            current_center == old(hub)@[column as int],
            carried_left_residual == old(horizontal)@[2 * (column - 1) + 1].minus(current_center),
            forall|k: int|
                0 <= k < old(horizontal)@.len() ==> (#[trigger] horizontal@[k]) == (if k < 2
                    * column {
                    old(horizontal)@[k].minus(old(hub)@[(k + 1) / 2])
                } else {
                    old(horizontal)@[k]
                }),
            forall|k: int|
                0 <= k < old(up)@.len() ==> (#[trigger] up@[k]) == (if HAS_UP && k % 2 == 1 && k / 2
                    < column {
                    old(up)@[k].minus(old(hub)@[k / 2])
                } else {
                    old(up)@[k]
                }),
            forall|k: int|
                0 <= k < old(down)@.len() ==> (#[trigger] down@[k]) == (if HAS_DOWN && k % 2 == 0
                    && k / 2 < column {
                    old(down)@[k].minus(old(hub)@[k / 2])
                } else {
                    old(down)@[k]
                }),
            forall|c: int|
                0 <= c < grid_size ==> (#[trigger] hub@[c]) == (if c < column {
                    row_residual_sum(
                        old(horizontal)@,
                        old(up)@,
                        old(down)@,
                        old(hub)@,
                        HAS_UP,
                        HAS_DOWN,
                        c,
                    ).scaled(hub_delta_scale@[c])
                } else {
                    old(hub)@[c]
                }),
        decreases grid_size - column,
    {
        let right_residual = horizontal[2 * column].sub(current_center);
        horizontal[2 * column] = right_residual;
        let next_center = hub[column + 1];
        let next_left_residual = horizontal[2 * column + 1].sub(next_center);
        horizontal[2 * column + 1] = next_left_residual;
        let mut residual_sum = Vec3::zero().add(carried_left_residual);
        residual_sum = residual_sum.add(right_residual);
        if HAS_UP {
            let up_residual = up[2 * column + 1].sub(current_center);
            up[2 * column + 1] = up_residual;
            residual_sum = residual_sum.add(up_residual);
        }
        if HAS_DOWN {
            let down_residual = down[2 * column].sub(current_center);
            down[2 * column] = down_residual;
            residual_sum = residual_sum.add(down_residual);
        }
        hub[column] = residual_sum.scale(hub_delta_scale[column]);
        current_center = next_center;
        carried_left_residual = next_left_residual;
        column = column + 1;
    }
    let mut residual_sum = Vec3::zero().add(carried_left_residual);
    if HAS_UP {
        let up_residual = up[2 * column + 1].sub(current_center);
        up[2 * column + 1] = up_residual;
        residual_sum = residual_sum.add(up_residual);
    }
    if HAS_DOWN {
        let down_residual = down[2 * column].sub(current_center);
        down[2 * column] = down_residual;
        residual_sum = residual_sum.add(down_residual);
    }
    hub[column] = residual_sum.scale(hub_delta_scale[column]);
}

/// The rod ends and the hubs of one row before and after it is gathered.
struct RowState<S> {
    horizontal: Seq<Vec3<S>>,
    up: Seq<Vec3<S>>,
    down: Seq<Vec3<S>>,
    hubs: Seq<Vec3<S>>,
}

/// What gathering makes of one row.
#[verifier::opaque]
spec fn row_gathered<S: Scalar>(
    before: RowState<S>,
    after: RowState<S>,
    scale: Seq<S>,
    has_up: bool,
    has_down: bool,
) -> bool {
    &&& after.horizontal.len() == before.horizontal.len()
    &&& after.up.len() == before.up.len()
    &&& after.down.len() == before.down.len()
    &&& after.hubs.len() == before.hubs.len()
    &&& forall|k: int|
        0 <= k < before.horizontal.len() ==> (#[trigger] after.horizontal[k])
            == before.horizontal[k].minus(before.hubs[(k + 1) / 2])
    &&& forall|k: int|
        0 <= k < before.up.len() ==> (#[trigger] after.up[k]) == (if k % 2 == 1 {
            before.up[k].minus(before.hubs[k / 2])
        } else {
            before.up[k]
        })
    &&& forall|k: int|
        0 <= k < before.down.len() ==> (#[trigger] after.down[k]) == (if k % 2 == 0 {
            before.down[k].minus(before.hubs[k / 2])
        } else {
            before.down[k]
        })
    &&& forall|column: int|
        0 <= column < before.hubs.len() ==> (#[trigger] after.hubs[column]) == row_residual_sum(
            before.horizontal,
            before.up,
            before.down,
            before.hubs,
            has_up,
            has_down,
            column,
        ).scaled(scale[column])
}

/// `gather_joint_residual_row` for a row that has rods above it or below it as the flags say.
fn gather_joint_residual_row_between<S: Scalar>(
    horizontal: &mut [Vec3<S>],
    up: &mut [Vec3<S>],
    down: &mut [Vec3<S>],
    hub: &mut [Vec3<S>],
    hub_delta_scale: &[S],
    has_up: bool,
    has_down: bool,
)
    requires
        old(hub)@.len() >= 2,
        old(horizontal)@.len() == 2 * (old(hub)@.len() - 1),
        old(up)@.len() == (if has_up { 2 * old(hub)@.len() } else { 0 }),
        old(down)@.len() == (if has_down { 2 * old(hub)@.len() } else { 0 }),
        hub_delta_scale@.len() == old(hub)@.len(),
    ensures
        final(horizontal)@.len() == old(horizontal)@.len(),
        final(up)@.len() == old(up)@.len(),
        final(down)@.len() == old(down)@.len(),
        final(hub)@.len() == old(hub)@.len(),
        row_gathered(
            (RowState {
                horizontal: old(horizontal)@,
                up: old(up)@,
                down: old(down)@,
                hubs: old(hub)@,
            }),
            (RowState {
                horizontal: final(horizontal)@,
                up: final(up)@,
                down: final(down)@,
                hubs: final(hub)@,
            }),
            hub_delta_scale@,
            has_up,
            has_down,
        ),
{
    proof {
        reveal(row_gathered);
    }
    if has_up && has_down {
        gather_joint_residual_row::<S, true, true>(horizontal, up, down, hub, hub_delta_scale);
    } else if has_up {
        gather_joint_residual_row::<S, true, false>(horizontal, up, down, hub, hub_delta_scale);
    } else if has_down {
        gather_joint_residual_row::<S, false, true>(horizontal, up, down, hub, hub_delta_scale);
    } else {
        gather_joint_residual_row::<S, false, false>(horizontal, up, down, hub, hub_delta_scale);
    }
}

/// The rod ends after one row has been gathered: those whose joint holds on to a hub of the
/// row are residuals.
proof fn lemma_row_residuals<S: Scalar>(
    endpoints: Seq<Vec3<S>>,
    centers: Seq<Vec3<S>>,
    n: int,
    row: int,
    gathered: Seq<Vec3<S>>,
)
    requires
        n >= 2,
        0 <= row < n,
        endpoints.len() == joint_total(n),
        gathered.len() == joint_total(n),
        centers.len() == hub_total(n),
        forall|k: int|
            0 <= k < 2 * horizontal_total(n) ==> (#[trigger] gathered[k]) == (if 2 * (row * (n - 1))
                <= k < 2 * (row * (n - 1)) + 2 * (n - 1) {
                endpoints[k].minus(centers[row * n + (k - 2 * (row * (n - 1)) + 1) / 2])
            } else {
                endpoints[k]
            }),
        forall|k: int|
            2 * horizontal_total(n) <= k < joint_total(n) ==> (#[trigger] gathered[k]) == ({
                let place = k - 2 * horizontal_total(n);
                if place % 2 == 1 && 2 * (row * n) - 2 * n <= place < 2 * (row * n) {
                    endpoints[k].minus(centers[row * n + (place - 2 * (row * n) + 2 * n) / 2])
                } else if place % 2 == 0 && 2 * (row * n) <= place < 2 * (row * n) + 2 * n {
                    endpoints[k].minus(centers[row * n + (place - 2 * (row * n)) / 2])
                } else {
                    endpoints[k]
                }
            }),
    ensures
        forall|joint: int|
            0 <= joint < endpoints.len() ==> (#[trigger] gathered[joint]) == (if joint_hub(n, joint)
                / n == row {
                joint_residual(endpoints, centers, n, joint)
            } else {
                endpoints[joint]
            }),
{
    assert forall|joint: int| 0 <= joint < endpoints.len() implies (#[trigger] gathered[joint])
        == (if joint_hub(n, joint) / n == row {
        joint_residual(endpoints, centers, n, joint)
    } else {
        endpoints[joint]
    }) by {
        if joint < 2 * horizontal_total(n) {
            lemma_joint_hub_horizontal(n, joint);
            lemma_in_row(2 * (n - 1), row, joint);
            assert(row * (2 * (n - 1)) == 2 * (row * (n - 1))) by (nonlinear_arith);
        } else {
            let place = joint - 2 * horizontal_total(n);
            lemma_joint_hub_vertical(n, place);
            lemma_in_row(n, row, place / 2);
            if row > 0 {
                lemma_in_row(n, row - 1, place / 2);
                assert((row - 1) * n == row * n - n) by (nonlinear_arith);
            }
        }
    }
}

/// Whether the rod ends of a net are cut up around a row: the horizontal rods before it, its
/// own and those after it; the vertical rods before those above it, those above it, those
/// below it and those after them.
spec fn row_pieces<S: Scalar>(
    n: int,
    row: int,
    horizontal: (Seq<Vec3<S>>, Seq<Vec3<S>>, Seq<Vec3<S>>),
    vertical: (Seq<Vec3<S>>, Seq<Vec3<S>>, Seq<Vec3<S>>, Seq<Vec3<S>>),
) -> bool {
    &&& horizontal.0.len() == 2 * (row * (n - 1))
    &&& horizontal.1.len() == 2 * (n - 1)
    &&& horizontal.0.len() + horizontal.1.len() + horizontal.2.len() == 2 * horizontal_total(n)
    &&& vertical.0.len() == (if row > 0 {
        2 * (row * n) - 2 * n
    } else {
        0
    })
    &&& vertical.1.len() == (if row > 0 {
        2 * n
    } else {
        0
    })
    &&& vertical.2.len() == (if row + 1 < n {
        2 * n
    } else {
        0
    })
    &&& vertical.0.len() + vertical.1.len() + vertical.2.len() + vertical.3.len() == 2
        * horizontal_total(n)
}

/// `lemma_row_residuals` for rod ends that are put together from the row and what is around it.
proof fn lemma_row_pieces<S: Scalar>(
    n: int,
    row: int,
    centers: Seq<Vec3<S>>,
    scale: Seq<S>,
    horizontal: (Seq<Vec3<S>>, Seq<Vec3<S>>, Seq<Vec3<S>>),
    vertical: (Seq<Vec3<S>>, Seq<Vec3<S>>, Seq<Vec3<S>>, Seq<Vec3<S>>),
    after: RowState<S>,
)
    requires
        n >= 2,
        0 <= row < n,
        row_pieces(n, row, horizontal, vertical),
        centers.len() == hub_total(n),
        row_gathered(
            (RowState {
                horizontal: horizontal.1,
                up: vertical.1,
                down: vertical.2,
                hubs: centers.subrange(row * n, row * n + n),
            }),
            after,
            scale,
            row > 0,
            row + 1 < n,
        ),
    ensures
        ({
            let endpoints = (horizontal.0 + (horizontal.1 + horizontal.2)) + (vertical.0 + (
            vertical.1 + (vertical.2 + vertical.3)));
            let gathered = (horizontal.0 + (after.horizontal + horizontal.2)) + (vertical.0 + (
            after.up + (after.down + vertical.3)));
            forall|joint: int|
                0 <= joint < endpoints.len() ==> (#[trigger] gathered[joint]) == (if joint_hub(
                    n,
                    joint,
                ) / n == row {
                    joint_residual(endpoints, centers, n, joint)
                } else {
                    endpoints[joint]
                })
        }),
{
    let endpoints = (horizontal.0 + (horizontal.1 + horizontal.2)) + (vertical.0 + (vertical.1 + (
    vertical.2 + vertical.3)));
    let gathered = (horizontal.0 + (after.horizontal + horizontal.2)) + (vertical.0 + (after.up + (
    after.down + vertical.3)));
    reveal(row_gathered);
    lemma_counts(n);
    assert(0 <= row * n && row * n + n <= n * n) by (nonlinear_arith)
        requires
            0 <= row,
            row + 1 <= n,
            n >= 2,
    ;
    if row == 0 {
        assert(row * n == 0 && row * (n - 1) == 0) by (nonlinear_arith)
            requires
                row == 0,
        ;
    }
    if row + 1 == n {
        assert(row * n == n * n - n) by (nonlinear_arith)
            requires
                row + 1 == n,
        ;
    }
    lemma_row_residuals(endpoints, centers, n, row, gathered);
}

/// The residual sum of a hub from the rods of its own row and the rows beside it is the sum
/// over its joints.
proof fn lemma_row_residual_sum<S: Scalar>(
    endpoints: Seq<Vec3<S>>,
    centers: Seq<Vec3<S>>,
    n: int,
    row: int,
    column: int,
    horizontal: Seq<Vec3<S>>,
    up: Seq<Vec3<S>>,
    down: Seq<Vec3<S>>,
    row_centers: Seq<Vec3<S>>,
)
    requires
        n >= 2,
        0 <= row < n,
        0 <= column < n,
        endpoints.len() == joint_total(n),
        centers.len() == hub_total(n),
        horizontal.len() == 2 * (n - 1),
        row > 0 ==> up.len() == 2 * n,
        row + 1 < n ==> down.len() == 2 * n,
        row_centers.len() == n,
        forall|k: int|
            0 <= k < horizontal.len() ==> (#[trigger] horizontal[k]) == endpoints[2 * (row * (n
                - 1)) + k],
        row > 0 ==> forall|k: int|
            0 <= k < 2 * n ==> (#[trigger] up[k]) == endpoints[2 * horizontal_total(n) + 2 * ((row
                - 1) * n) + k],
        row + 1 < n ==> forall|k: int|
            0 <= k < 2 * n ==> (#[trigger] down[k]) == endpoints[2 * horizontal_total(n) + 2 * (row
                * n) + k],
        forall|k: int| 0 <= k < n ==> (#[trigger] row_centers[k]) == centers[row * n + k],
    ensures
        row_residual_sum(horizontal, up, down, row_centers, row > 0, row + 1 < n, column)
            == neighbor_sum(
            n,
            row * n + column,
            |joint: int| joint_residual(endpoints, centers, n, joint),
        ),
{
    lemma_row_index(n, n, row, column);
    lemma_hub_joints(n, row, column);
}

/// The hubs after one row has been gathered: those of the row are movements.
proof fn lemma_row_deltas<S: Scalar>(
    n: int,
    row: int,
    endpoints: Seq<Vec3<S>>,
    centers: Seq<Vec3<S>>,
    scale: Seq<S>,
    horizontal: (Seq<Vec3<S>>, Seq<Vec3<S>>, Seq<Vec3<S>>),
    vertical: (Seq<Vec3<S>>, Seq<Vec3<S>>, Seq<Vec3<S>>, Seq<Vec3<S>>),
    after: RowState<S>,
)
    requires
        n >= 2,
        0 <= row < n,
        row_pieces(n, row, horizontal, vertical),
        endpoints == (horizontal.0 + (horizontal.1 + horizontal.2)) + (vertical.0 + (vertical.1 + (
        vertical.2 + vertical.3))),
        centers.len() == hub_total(n),
        scale.len() == hub_total(n),
        row_gathered(
            (RowState {
                horizontal: horizontal.1,
                up: vertical.1,
                down: vertical.2,
                hubs: centers.subrange(row * n, row * n + n),
            }),
            after,
            scale.subrange(row * n, row * n + n),
            row > 0,
            row + 1 < n,
        ),
    ensures
        0 <= row * n,
        row * n + n <= hub_total(n),
        ({
            let gathered = centers.subrange(0, row * n) + (after.hubs + centers.subrange(
                row * n + n,
                hub_total(n),
            ));
            forall|hub: int|
                0 <= hub < centers.len() ==> (#[trigger] gathered[hub]) == (if hub / n == row {
                    hub_delta(endpoints, centers, scale, n, hub)
                } else {
                    centers[hub]
                })
        }),
{
    lemma_counts(n);
    assert(0 <= row * n && row * n + n <= n * n) by (nonlinear_arith)
        requires
            0 <= row,
            row + 1 <= n,
            n >= 2,
    ;
    assert((row - 1) * n == row * n - n) by (nonlinear_arith);
    if row == 0 {
        assert(row * n == 0) by (nonlinear_arith)
            requires
                row == 0,
        ;
    }
    reveal(row_gathered);
    let gathered = centers.subrange(0, row * n) + (after.hubs + centers.subrange(
        row * n + n,
        hub_total(n),
    ));
    assert forall|hub: int| 0 <= hub < centers.len() implies (#[trigger] gathered[hub]) == (if hub
        / n == row {
        hub_delta(endpoints, centers, scale, n, hub)
    } else {
        centers[hub]
    }) by {
        lemma_in_row(n, row, hub);
        if hub / n == row {
            lemma_row_residual_sum(
                endpoints,
                centers,
                n,
                row,
                hub - row * n,
                horizontal.1,
                vertical.1,
                vertical.2,
                centers.subrange(row * n, row * n + n),
            );
        }
    }
}

/// Where a row lies among the rod ends and the hubs of a net.
struct RowOffsets {
    horizontal_start: usize,
    horizontal_len: usize,
    horizontal_total: usize,
    up_start: usize,
    up_len: usize,
    down_len: usize,
    hub_start: usize,
}

fn row_offsets(grid_size: usize, row: usize) -> (offsets: RowOffsets)
    requires
        row < grid_size,
        grid_size >= 2,
        hub_total(grid_size as int) <= usize::MAX,
        joint_total(grid_size as int) <= usize::MAX,
    ensures
        offsets.horizontal_start == 2 * (row * (grid_size - 1)),
        offsets.horizontal_len == 2 * (grid_size - 1),
        offsets.horizontal_start + offsets.horizontal_len <= offsets.horizontal_total,
        offsets.horizontal_total == 2 * horizontal_total(grid_size as int),
        offsets.up_start == (if row > 0 { 2 * (row * grid_size) - 2 * grid_size } else { 0 }),
        offsets.up_len == (if row > 0 { 2 * grid_size } else { 0 }),
        offsets.down_len == (if row + 1 < grid_size { 2 * grid_size } else { 0 }),
        offsets.up_start + offsets.up_len + offsets.down_len <= offsets.horizontal_total,
        offsets.hub_start == row * grid_size,
        offsets.hub_start + grid_size <= hub_total(grid_size as int),
{
    proof {
        let n = grid_size as int;
        let r = row as int;
        lemma_counts(n);
        assert(r * (2 * (n - 1)) == 2 * (r * (n - 1))) by (nonlinear_arith);
        assert((r - 1) * (2 * n) == 2 * (r * n) - 2 * n) by (nonlinear_arith);
        assert(n * (2 * (n - 1)) == 2 * (n * (n - 1))) by (nonlinear_arith);
        assert(0 <= r * (n - 1) && r * (n - 1) + (n - 1) <= n * (n - 1)) by (nonlinear_arith)
            requires
                0 <= r,
                r + 1 <= n,
                n >= 2,
        ;
        assert(0 <= r * n && r * n + n <= n * n) by (nonlinear_arith)
            requires
                0 <= r,
                r + 1 <= n,
                n >= 2,
        ;
        if r >= 1 {
            assert(r * n >= n) by (nonlinear_arith)
                requires
                    r >= 1,
                    n >= 2,
            ;
        } else {
            assert(r * n == 0) by (nonlinear_arith)
                requires
                    r == 0,
            ;
        }
        if r + 1 < n {
            assert(r * n + n <= (n - 1) * n) by (nonlinear_arith)
                requires
                    0 <= r,
                    r + 2 <= n,
                    n >= 2,
            ;
        }
    }
    let horizontal_len: usize = 2 * (grid_size - 1);
    let vertical_len: usize = 2 * grid_size;
    RowOffsets {
        horizontal_start: row * horizontal_len,
        horizontal_len,
        horizontal_total: grid_size * horizontal_len,
        up_start: if row > 0 {
            (row - 1) * vertical_len
        } else {
            0
        },
        up_len: if row > 0 {
            vertical_len
        } else {
            0
        },
        down_len: if row + 1 < grid_size {
            vertical_len
        } else {
            0
        },
        hub_start: row * grid_size,
    }
}

/// `gather_joint_residual_row_between` for the hubs that start at `hub_start`.
fn gather_joint_residual_row_at<S: Scalar>(
    horizontal: &mut [Vec3<S>],
    up: &mut [Vec3<S>],
    down: &mut [Vec3<S>],
    hub: &mut [Vec3<S>],
    hub_delta_scale: &[S],
    hub_start: usize,
    grid_size: usize,
    has_up: bool,
    has_down: bool,
)
    requires
        grid_size >= 2,
        hub_start + grid_size <= old(hub)@.len(),
        old(horizontal)@.len() == 2 * (grid_size - 1),
        old(up)@.len() == (if has_up { 2 * grid_size } else { 0 }),
        old(down)@.len() == (if has_down { 2 * grid_size } else { 0 }),
        hub_delta_scale@.len() == old(hub)@.len(),
    ensures
        final(horizontal)@.len() == old(horizontal)@.len(),
        final(up)@.len() == old(up)@.len(),
        final(down)@.len() == old(down)@.len(),
        final(hub)@.len() == old(hub)@.len(),
        final(hub)@ == old(hub)@.subrange(0, hub_start as int) + (final(hub)@.subrange(
            hub_start as int,
            hub_start + grid_size,
        ) + old(hub)@.subrange(hub_start + grid_size, old(hub)@.len() as int)),
        row_gathered(
            (RowState {
                horizontal: old(horizontal)@,
                up: old(up)@,
                down: old(down)@,
                hubs: old(hub)@.subrange(hub_start as int, hub_start + grid_size),
            }),
            (RowState {
                horizontal: final(horizontal)@,
                up: final(up)@,
                down: final(down)@,
                hubs: final(hub)@.subrange(hub_start as int, hub_start + grid_size),
            }),
            hub_delta_scale@.subrange(hub_start as int, hub_start + grid_size),
            has_up,
            has_down,
        ),
{
    assert(hub@.len() == hub.len());
    let ghost hubs = hub@;
    let (_, hub_rest) = hub.split_at_mut(hub_start);
    let (hub_row, _) = hub_rest.split_at_mut(grid_size);
    let scale_row = &hub_delta_scale[hub_start..hub_start + grid_size];
    assert(hub_row@ == hubs.subrange(hub_start as int, hub_start + grid_size));
    gather_joint_residual_row_between(
        horizontal,
        up,
        down,
        hub_row,
        scale_row,
        has_up,
        has_down,
    );
    proof {
        let after = hub_row@;
        assert(hub@.subrange(hub_start as int, hub_start + grid_size) == after);
    }
}

/// The rows of a net one above the other: what `gather_joint_residual_row` does to the row of
/// the given number.
fn gather_joint_residuals_of_row<S: Scalar>(
    endpoint_or_residual: &mut [Vec3<S>],
    hub_center_or_delta: &mut [Vec3<S>],
    hub_delta_scale: &[S],
    grid_size: usize,
    row: usize,
)
    requires
        row < grid_size,
        grid_size >= 2,
        old(hub_center_or_delta)@.len() == hub_total(grid_size as int),
        hub_delta_scale@.len() == hub_total(grid_size as int),
        old(endpoint_or_residual)@.len() == joint_total(grid_size as int),
    ensures
        final(endpoint_or_residual)@.len() == old(endpoint_or_residual)@.len(),
        final(hub_center_or_delta)@.len() == old(hub_center_or_delta)@.len(),
        forall|joint: int|
            0 <= joint < old(endpoint_or_residual)@.len() ==> (#[trigger] final(endpoint_or_residual)@[joint]) == (if joint_hub(grid_size as int, joint) / (grid_size as int) == row {
                joint_residual(
                    old(endpoint_or_residual)@,
                    old(hub_center_or_delta)@,
                    grid_size as int,
                    joint,
                )
            } else {
                old(endpoint_or_residual)@[joint]
            }),
        forall|hub: int|
            0 <= hub < old(hub_center_or_delta)@.len() ==> (#[trigger] final(hub_center_or_delta)@[hub]) == (if hub / (grid_size as int) == row {
                hub_delta(
                    old(endpoint_or_residual)@,
                    old(hub_center_or_delta)@,
                    hub_delta_scale@,
                    grid_size as int,
                    hub,
                )
            } else {
                old(hub_center_or_delta)@[hub]
            }),
{
    let ghost n = grid_size as int;
    let ghost r = row as int;
    let ghost endpoints = endpoint_or_residual@;
    let ghost centers = hub_center_or_delta@;
    assert(endpoint_or_residual@.len() == endpoint_or_residual.len());
    assert(hub_center_or_delta@.len() == hub_center_or_delta.len());
    let offsets = row_offsets(grid_size, row);
    let (horizontal, vertical) = endpoint_or_residual.split_at_mut(offsets.horizontal_total);
    let (horizontal_before, horizontal_rest) = horizontal.split_at_mut(offsets.horizontal_start);
    let (horizontal_row, horizontal_after) = horizontal_rest.split_at_mut(offsets.horizontal_len);
    let (vertical_before, vertical_rest) = vertical.split_at_mut(offsets.up_start);
    let (up, down_and_after) = vertical_rest.split_at_mut(offsets.up_len);
    let (down, vertical_after) = down_and_after.split_at_mut(offsets.down_len);
    let ghost horizontal_pieces = (horizontal_before@, horizontal_row@, horizontal_after@);
    let ghost vertical_pieces = (vertical_before@, up@, down@, vertical_after@);
    assert(endpoints == (horizontal_pieces.0 + (horizontal_pieces.1 + horizontal_pieces.2)) + (
    vertical_pieces.0 + (vertical_pieces.1 + (vertical_pieces.2 + vertical_pieces.3))));
    gather_joint_residual_row_at(
        horizontal_row,
        up,
        down,
        hub_center_or_delta,
        hub_delta_scale,
        offsets.hub_start,
        grid_size,
        row > 0,
        row + 1 < grid_size,
    );
    proof {
        let after = RowState {
            horizontal: horizontal_row@,
            up: up@,
            down: down@,
            hubs: hub_center_or_delta@.subrange(r * n, r * n + n),
        };
        let scales = hub_delta_scale@.subrange(r * n, r * n + n);
        lemma_row_pieces(n, r, centers, scales, horizontal_pieces, vertical_pieces, after);
        lemma_row_deltas(
            n,
            r,
            endpoints,
            centers,
            hub_delta_scale@,
            horizontal_pieces,
            vertical_pieces,
            after,
        );
        assert(endpoint_or_residual@ == (horizontal_pieces.0 + (after.horizontal
            + horizontal_pieces.2)) + (vertical_pieces.0 + (after.up + (after.down
            + vertical_pieces.3))));
        assert(hub_center_or_delta@ == centers.subrange(0, r * n) + (after.hubs + centers.subrange(
            r * n + n,
            hub_total(n),
        )));
    }
}

/// The movement of a hub depends on the rod ends of its own joints and on its own centre.
proof fn lemma_hub_delta_local<S: Scalar>(
    endpoints: Seq<Vec3<S>>,
    centers: Seq<Vec3<S>>,
    other_endpoints: Seq<Vec3<S>>,
    other_centers: Seq<Vec3<S>>,
    scale: Seq<S>,
    n: int,
    hub: int,
)
    requires
        n >= 2,
        0 <= hub < hub_total(n),
        other_centers[hub] == centers[hub],
        forall|joint: int|
            0 <= joint < joint_total(n) && joint_hub(n, joint) == hub ==> (
            #[trigger] other_endpoints[joint]) == endpoints[joint],
    ensures
        hub_delta(other_endpoints, other_centers, scale, n, hub) == hub_delta(
            endpoints,
            centers,
            scale,
            n,
            hub,
        ),
{
    lemma_index_row(n, n, hub);
    lemma_hub_joints(n, hub / n, hub % n);
    let left = left_joint(n, hub / n, hub % n);
    let right = right_joint(n, hub / n, hub % n);
    let up = up_joint(n, hub / n, hub % n);
    let down = down_joint(n, hub / n, hub % n);
    lemma_counts(n);
    if hub % n > 0 {
        assert(other_endpoints[left] == endpoints[left]);
    }
    if hub % n + 1 < n {
        assert(other_endpoints[right] == endpoints[right]);
    }
    if hub / n > 0 {
        assert(other_endpoints[up] == endpoints[up]);
    }
    if hub / n + 1 < n {
        assert(other_endpoints[down] == endpoints[down]);
    }
}

/// Turns the rod ends of a net into its joint residuals and its hub centres into hub
/// movements, row by row.
pub fn gather_joint_residuals_row_streaming<S: Scalar>(
    endpoint_or_residual: &mut [Vec3<S>],
    hub_center_or_delta: &mut [Vec3<S>],
    hub_delta_scale: &[S],
    grid_size: usize,
)
    requires
        grid_size >= 2,
        old(hub_center_or_delta)@.len() == hub_total(grid_size as int),
        hub_delta_scale@.len() == hub_total(grid_size as int),
        old(endpoint_or_residual)@.len() == joint_total(grid_size as int),
    ensures
        final(endpoint_or_residual)@ == joint_residuals(
            old(endpoint_or_residual)@,
            old(hub_center_or_delta)@,
            grid_size as int,
        ),
        final(hub_center_or_delta)@ == hub_deltas(
            old(endpoint_or_residual)@,
            old(hub_center_or_delta)@,
            hub_delta_scale@,
            grid_size as int,
        ),
{
    let ghost n = grid_size as int;
    let ghost endpoints = endpoint_or_residual@;
    let ghost centers = hub_center_or_delta@;
    let mut row: usize = 0;
    while row < grid_size
        invariant
            row <= grid_size,
            grid_size >= 2,
            n == grid_size,
            endpoints.len() == joint_total(n),
            centers.len() == hub_total(n),
            hub_delta_scale@.len() == hub_total(n),
            endpoint_or_residual@.len() == joint_total(n),
            hub_center_or_delta@.len() == hub_total(n),
            forall|joint: int|
                0 <= joint < endpoints.len() ==> (#[trigger] endpoint_or_residual@[joint]) == (
                if joint_hub(n, joint) / n < row {
                    joint_residual(endpoints, centers, n, joint)
                } else {
                    endpoints[joint]
                }),
            forall|hub: int|
                0 <= hub < centers.len() ==> (#[trigger] hub_center_or_delta@[hub]) == (if hub / n
                    < row {
                    hub_delta(endpoints, centers, hub_delta_scale@, n, hub)
                } else {
                    centers[hub]
                }),
        decreases grid_size - row,
    {
        let ghost ends_before = endpoint_or_residual@;
        let ghost hubs_before = hub_center_or_delta@;
        gather_joint_residuals_of_row(
            endpoint_or_residual,
            hub_center_or_delta,
            hub_delta_scale,
            grid_size,
            row,
        );
        proof {
            assert forall|joint: int| 0 <= joint < endpoints.len() implies (
            #[trigger] endpoint_or_residual@[joint]) == (if joint_hub(n, joint) / n < row + 1 {
                joint_residual(endpoints, centers, n, joint)
            } else {
                endpoints[joint]
            }) by {
                lemma_joint_is_neighbor(n, joint);
                assert(hubs_before.len() == centers.len());
                assert(ends_before[joint] == ends_before[joint]);
                let hub = joint_hub(n, joint);
                assert(hubs_before[hub] == (if hub / n < row {
                    hub_delta(endpoints, centers, hub_delta_scale@, n, hub)
                } else {
                    centers[hub]
                }));
            }
            assert forall|hub: int| 0 <= hub < centers.len() implies (
            #[trigger] hub_center_or_delta@[hub]) == (if hub / n < row + 1 {
                hub_delta(endpoints, centers, hub_delta_scale@, n, hub)
            } else {
                centers[hub]
            }) by {
                assert(hubs_before[hub] == hubs_before[hub]);
                if hub / n == row {
                    lemma_hub_delta_local(
                        endpoints,
                        centers,
                        ends_before,
                        hubs_before,
                        hub_delta_scale@,
                        n,
                        hub,
                    );
                }
            }
        }
        row = row + 1;
    }
    proof {
        assert forall|joint: int| 0 <= joint < endpoints.len() implies (
        #[trigger] endpoint_or_residual@[joint]) == joint_residual(
            endpoints,
            centers,
            n,
            joint,
        ) by {
            lemma_joint_is_neighbor(n, joint);
        }
        assert forall|hub: int| 0 <= hub < centers.len() implies (
        #[trigger] hub_center_or_delta@[hub]) == hub_delta(
            endpoints,
            centers,
            hub_delta_scale@,
            n,
            hub,
        ) by {
            lemma_index_row(n, n, hub);
        }
    }
}

/// Turns one rod end into a residual and adds it to a sum.
fn take_residual<S: Scalar>(
    endpoint_or_residual: &mut [Vec3<S>],
    joint: usize,
    center: Vec3<S>,
    residual_sum: Vec3<S>,
) -> (result: Vec3<S>)
    requires
        joint < old(endpoint_or_residual)@.len(),
    ensures
        final(endpoint_or_residual)@ == old(endpoint_or_residual)@.update(
            joint as int,
            old(endpoint_or_residual)@[joint as int].minus(center),
        ),
        result == residual_sum.plus(old(endpoint_or_residual)@[joint as int].minus(center)),
{
    let residual = endpoint_or_residual[joint].sub(center);
    endpoint_or_residual[joint] = residual;
    residual_sum.add(residual)
}

/// `gather_joint_residuals_row_streaming`, hub by hub and joint by joint.
pub fn gather_joint_residuals_reference<S: Scalar>(
    endpoint_or_residual: &mut [Vec3<S>],
    hub_center_or_delta: &mut [Vec3<S>],
    hub_delta_scale: &[S],
    grid_size: usize,
)
    requires
        grid_size >= 2,
        old(hub_center_or_delta)@.len() == hub_total(grid_size as int),
        hub_delta_scale@.len() == hub_total(grid_size as int),
        old(endpoint_or_residual)@.len() == joint_total(grid_size as int),
    ensures
        final(endpoint_or_residual)@ == joint_residuals(
            old(endpoint_or_residual)@,
            old(hub_center_or_delta)@,
            grid_size as int,
        ),
        final(hub_center_or_delta)@ == hub_deltas(
            old(endpoint_or_residual)@,
            old(hub_center_or_delta)@,
            hub_delta_scale@,
            grid_size as int,
        ),
{
    let ghost n = grid_size as int;
    let ghost endpoints = endpoint_or_residual@;
    let ghost centers = hub_center_or_delta@;
    proof {
        lemma_counts(n);
        assert(endpoint_or_residual@.len() == endpoint_or_residual.len());
    }
    let rods_per_row: usize = grid_size - 1;
    let horizontal_rods: usize = grid_size * rods_per_row;
    let mut row: usize = 0;
    let mut column: usize = 0;
    let mut hub: usize = 0;
    while row < grid_size
        invariant
            row <= grid_size,
            column < grid_size,
            row == grid_size ==> column == 0,
            grid_size >= 2,
            n == grid_size,
            rods_per_row == n - 1,
            horizontal_rods == horizontal_total(n),
            hub == row * n + column,
            joint_total(n) <= usize::MAX,
            endpoints.len() == joint_total(n),
            centers.len() == hub_total(n),
            hub_delta_scale@.len() == hub_total(n),
            endpoint_or_residual@.len() == joint_total(n),
            hub_center_or_delta@.len() == hub_total(n),
            forall|joint: int|
                0 <= joint < endpoints.len() ==> (#[trigger] endpoint_or_residual@[joint]) == (
                if joint_hub(n, joint) < hub {
                    joint_residual(endpoints, centers, n, joint)
                } else {
                    endpoints[joint]
                }),
            forall|h: int|
                0 <= h < centers.len() ==> (#[trigger] hub_center_or_delta@[h]) == (if h < hub {
                    hub_delta(endpoints, centers, hub_delta_scale@, n, h)
                } else {
                    centers[h]
                }),
        decreases grid_size - row, grid_size - column,
    {
        let ghost ends_before = endpoint_or_residual@;
        let ghost hubs_before = hub_center_or_delta@;
        let ghost r = row as int;
        let ghost c = column as int;
        proof {
            lemma_row_index(n, n, r, c);
            lemma_hub_joints(n, r, c);
            lemma_counts(n);
            assert((r - 1) * n == r * n - n) by (nonlinear_arith);
            assert((r + 1) * n == r * n + n) by (nonlinear_arith);
            assert(0 <= r * (n - 1) && r * (n - 1) + (n - 1) <= n * (n - 1)) by (nonlinear_arith)
                requires
                    0 <= r,
                    r + 1 <= n,
                    n >= 2,
            ;
        }
        let center = hub_center_or_delta[hub];
        let mut residual_sum = Vec3::<S>::zero();
        if column > 0 {
            residual_sum = take_residual(
                endpoint_or_residual,
                2 * (row * rods_per_row + column - 1) + 1,
                center,
                residual_sum,
            );
        }
        if column + 1 < grid_size {
            residual_sum = take_residual(
                endpoint_or_residual,
                2 * (row * rods_per_row + column),
                center,
                residual_sum,
            );
        }
        if row > 0 {
            residual_sum = take_residual(
                endpoint_or_residual,
                2 * (horizontal_rods + hub - grid_size) + 1,
                center,
                residual_sum,
            );
        }
        if row + 1 < grid_size {
            residual_sum = take_residual(
                endpoint_or_residual,
                2 * (horizontal_rods + hub),
                center,
                residual_sum,
            );
        }
        hub_center_or_delta[hub] = residual_sum.scale(hub_delta_scale[hub]);
        proof {
            assert forall|joint: int| 0 <= joint < endpoints.len() implies (
            #[trigger] endpoint_or_residual@[joint]) == (if joint_hub(n, joint) < hub + 1 {
                joint_residual(endpoints, centers, n, joint)
            } else {
                endpoints[joint]
            }) by {
                lemma_joint_is_neighbor(n, joint);
                assert(ends_before[joint] == ends_before[joint]);
            }
            assert(hub_delta(endpoints, centers, hub_delta_scale@, n, hub as int)
                == hub_center_or_delta@[hub as int]);
            assert forall|h: int| 0 <= h < centers.len() implies (
            #[trigger] hub_center_or_delta@[h]) == (if h < hub + 1 {
                hub_delta(endpoints, centers, hub_delta_scale@, n, h)
            } else {
                centers[h]
            }) by {
                assert(hubs_before[h] == hubs_before[h]);
            }
        }
        hub = hub + 1;
        if column + 1 < grid_size {
            column = column + 1;
        } else {
            column = 0;
            row = row + 1;
        }
    }
    proof {
        assert forall|joint: int| 0 <= joint < endpoints.len() implies (
        #[trigger] endpoint_or_residual@[joint]) == joint_residual(
            endpoints,
            centers,
            n,
            joint,
        ) by {
            lemma_joint_is_neighbor(n, joint);
        }
    }
}

} // verus!
