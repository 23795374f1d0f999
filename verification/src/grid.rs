//! The numbering of a square net.
//!
//! A net of `n` by `n` hubs numbers its bodies hubs first, row by row; then the horizontal
//! rods, row by row; then the vertical ones, row by row. Every rod has two joints, the first
//! at its start and the second at its end.

use vstd::arithmetic::div_mod::{
    lemma_fundamental_div_mod, lemma_fundamental_div_mod_converse, lemma_mod_bound,
};
use vstd::prelude::*;

verus! {

/// The number of hubs of a net.
pub open spec fn hub_total(n: int) -> int {
    n * n
}

/// The number of horizontal rods of a net, which is also that of the vertical ones.
pub open spec fn horizontal_total(n: int) -> int {
    n * (n - 1)
}

/// The number of rods of a net.
pub open spec fn rod_total(n: int) -> int {
    2 * horizontal_total(n)
}

/// The number of joints of a net.
pub open spec fn joint_total(n: int) -> int {
    2 * rod_total(n)
}

/// The number of hubs and rods of a net.
pub open spec fn net_total(n: int) -> int {
    hub_total(n) + rod_total(n)
}

/// The hub in a row and a column.
pub open spec fn hub_at(n: int, row: int, column: int) -> int {
    row * n + column
}

/// The horizontal rod that starts in a row and a column.
pub open spec fn horizontal_rod_at(n: int, row: int, column: int) -> int {
    row * (n - 1) + column
}

/// The vertical rod that starts in a row and a column.
pub open spec fn vertical_rod_at(n: int, row: int, column: int) -> int {
    horizontal_total(n) + hub_at(n, row, column)
}

/// The hub at the start of a rod.
pub open spec fn start_hub(n: int, rod: int) -> int {
    if rod < horizontal_total(n) {
        hub_at(n, rod / (n - 1), rod % (n - 1))
    } else {
        rod - horizontal_total(n)
    }
}

/// The hub at the end of a rod.
pub open spec fn end_hub(n: int, rod: int) -> int {
    if rod < horizontal_total(n) {
        start_hub(n, rod) + 1
    } else {
        start_hub(n, rod) + n
    }
}

/// The hub that a joint holds on to.
pub open spec fn joint_hub(n: int, joint: int) -> int {
    if joint % 2 == 0 {
        start_hub(n, joint / 2)
    } else {
        end_hub(n, joint / 2)
    }
}

/// The joint at the end of the rod to the left of a hub.
pub open spec fn left_joint(n: int, row: int, column: int) -> int {
    2 * horizontal_rod_at(n, row, column - 1) + 1
}

/// The joint at the start of the rod to the right of a hub.
pub open spec fn right_joint(n: int, row: int, column: int) -> int {
    2 * horizontal_rod_at(n, row, column)
}

/// The joint at the end of the rod above a hub.
pub open spec fn up_joint(n: int, row: int, column: int) -> int {
    2 * vertical_rod_at(n, row - 1, column) + 1
}

/// The joint at the start of the rod below a hub.
pub open spec fn down_joint(n: int, row: int, column: int) -> int {
    2 * vertical_rod_at(n, row, column)
}

/// A row of equal length holds the indices from its start to its end, and no others.
pub proof fn lemma_in_row(len: int, row: int, index: int)
    requires
        0 < len,
        0 <= row,
        0 <= index,
    ensures
        index / len == row <==> row * len <= index < row * len + len,
        index / len == row ==> index % len == index - row * len,
{
    lemma_fundamental_div_mod(index, len);
    lemma_mod_bound(index, len);
    assert(len * (index / len) == (index / len) * len) by (nonlinear_arith);
    if row * len <= index < row * len + len {
        lemma_fundamental_div_mod_converse(index, len, row, index - row * len);
    }
}

/// The hub of a joint of a horizontal rod lies in the rod's row.
pub proof fn lemma_joint_hub_horizontal(n: int, joint: int)
    requires
        n >= 2,
        0 <= joint < 2 * horizontal_total(n),
    ensures
        ({
            let row = joint / (2 * (n - 1));
            let place = joint % (2 * (n - 1));
            &&& 0 <= row < n
            &&& 0 <= place < 2 * (n - 1)
            &&& joint == 2 * (row * (n - 1)) + place
            &&& joint_hub(n, joint) == row * n + (place + 1) / 2
            &&& joint_hub(n, joint) / n == row
            &&& joint_hub(n, joint) % n == (place + 1) / 2
        }),
{
    let len = 2 * (n - 1);
    let row = joint / len;
    let place = joint % len;
    assert(2 * (n * (n - 1)) == n * len) by (nonlinear_arith)
        requires
            len == 2 * (n - 1),
    ;
    lemma_index_row(len, n, joint);
    assert(row * len == 2 * (row * (n - 1))) by (nonlinear_arith)
        requires
            len == 2 * (n - 1),
    ;
    let rod = joint / 2;
    assert(rod == row * (n - 1) + place / 2);
    assert(0 <= row * (n - 1) && 0 <= row * n) by (nonlinear_arith)
        requires
            n >= 2,
            row >= 0,
    ;
    lemma_in_row(n - 1, row, rod);
    lemma_in_row(n, row, row * n + (place + 1) / 2);
}

/// The hub of a joint of a vertical rod lies in the rod's column, in its row or the next.
pub proof fn lemma_joint_hub_vertical(n: int, place: int)
    requires
        n >= 2,
        0 <= place < 2 * horizontal_total(n),
    ensures
        ({
            let joint = 2 * horizontal_total(n) + place;
            let hub = place / 2 + (if place % 2 == 0 { 0 } else { n });
            &&& joint_hub(n, joint) == hub
            &&& 0 <= (place / 2) / n < n - 1
            &&& place / 2 == (place / 2) / n * n + (place / 2) % n
            &&& 0 <= (place / 2) % n < n
            &&& hub / n == (place / 2) / n + place % 2
            &&& hub % n == (place / 2) % n
        }),
{
    lemma_counts(n);
    lemma_index_row(n, n - 1, place / 2);
    let row = (place / 2) / n;
    let hub = place / 2 + (if place % 2 == 0 { 0 } else { n });
    assert((row + 1) * n == row * n + n) by (nonlinear_arith);
    lemma_in_row(n, row + place % 2, hub);
}

/// The joints to the left, to the right, above and below a hub hold on to it.
pub proof fn lemma_hub_joints(n: int, row: int, column: int)
    requires
        n >= 2,
        0 <= row < n,
        0 <= column < n,
    ensures
        column > 0 ==> 0 <= left_joint(n, row, column) < 2 * horizontal_total(n) && joint_hub(
            n,
            left_joint(n, row, column),
        ) == hub_at(n, row, column),
        column + 1 < n ==> 0 <= right_joint(n, row, column) < 2 * horizontal_total(n) && joint_hub(
            n,
            right_joint(n, row, column),
        ) == hub_at(n, row, column),
        row > 0 ==> 2 * horizontal_total(n) <= up_joint(n, row, column) < joint_total(n)
            && joint_hub(n, up_joint(n, row, column)) == hub_at(n, row, column),
        row + 1 < n ==> 2 * horizontal_total(n) <= down_joint(n, row, column) < joint_total(n)
            && joint_hub(n, down_joint(n, row, column)) == hub_at(n, row, column),
{
    lemma_counts(n);
    if column > 0 {
        lemma_row_index(n - 1, n, row, column - 1);
    }
    if column + 1 < n {
        lemma_row_index(n - 1, n, row, column);
    }
    if row > 0 {
        lemma_row_index(n, n - 1, row - 1, column);
        assert((row - 1) * n == row * n - n) by (nonlinear_arith);
    }
    if row + 1 < n {
        lemma_row_index(n, n - 1, row, column);
    }
}

/// Every joint is the left, the right, the upper or the lower joint of its hub.
pub proof fn lemma_joint_is_neighbor(n: int, joint: int)
    requires
        n >= 2,
        0 <= joint < joint_total(n),
    ensures
        0 <= joint_hub(n, joint) < hub_total(n),
        ({
            let row = joint_hub(n, joint) / n;
            let column = joint_hub(n, joint) % n;
            &&& 0 <= row < n
            &&& 0 <= column < n
            &&& {
                ||| column > 0 && joint == left_joint(n, row, column)
                ||| column + 1 < n && joint == right_joint(n, row, column)
                ||| row > 0 && joint == up_joint(n, row, column)
                ||| row + 1 < n && joint == down_joint(n, row, column)
            }
        }),
{
    let hub = joint_hub(n, joint);
    lemma_counts(n);
    if joint < 2 * horizontal_total(n) {
        lemma_joint_hub_horizontal(n, joint);
        lemma_row_index(n, n, hub / n, hub % n);
    } else {
        let place = joint - 2 * horizontal_total(n);
        lemma_joint_hub_vertical(n, place);
        let row = (place / 2) / n;
        assert((row + 1) * n == row * n + n) by (nonlinear_arith);
        lemma_row_index(n, n, hub / n, hub % n);
    }
}

/// Rows of equal length number their items without gaps or overlaps.
pub proof fn lemma_row_index(len: int, rows: int, row: int, column: int)
    requires
        0 < len,
        0 <= row < rows,
        0 <= column < len,
    ensures
        0 <= row * len + column < rows * len,
        (row * len + column) / len == row,
        (row * len + column) % len == column,
{
    lemma_fundamental_div_mod_converse(row * len + column, len, row, column);
    assert(0 <= row * len) by (nonlinear_arith)
        requires
            0 <= row,
            0 < len,
    ;
    assert((row + 1) * len <= rows * len) by (nonlinear_arith)
        requires
            row + 1 <= rows,
            0 < len,
    ;
    assert((row + 1) * len == row * len + len) by (nonlinear_arith);
}

/// An index among rows of equal length belongs to one row and one column.
pub proof fn lemma_index_row(len: int, rows: int, index: int)
    requires
        0 < len,
        0 <= index < rows * len,
    ensures
        0 <= index / len < rows,
        0 <= index % len < len,
        index == (index / len) * len + index % len,
{
    lemma_fundamental_div_mod(index, len);
    lemma_mod_bound(index, len);
    let row = index / len;
    assert(len * row == row * len) by (nonlinear_arith);
    assert(row >= 0) by (nonlinear_arith)
        requires
            row * len > -len,
            0 < len,
    ;
    assert(row < rows) by (nonlinear_arith)
        requires
            row * len < rows * len,
            0 < len,
    ;
}

/// The bounds that keep the counts of a net inside a machine word.
pub proof fn lemma_counts(n: int)
    requires
        n >= 1,
    ensures
        hub_total(n) >= n,
        horizontal_total(n) >= 0,
        n >= 2 ==> horizontal_total(n) >= n,
        horizontal_total(n) == hub_total(n) - n,
        horizontal_total(n) == (n - 1) * n,
        net_total(n) == 3 * (n * n) - 2 * n,
{
    assert(n * n >= n && n * (n - 1) == n * n - n && n * (n - 1) == (n - 1) * n && n * (n - 1)
        >= 0) by (nonlinear_arith)
        requires
            n >= 1,
    ;
    if n >= 2 {
        assert(n * (n - 1) >= n) by (nonlinear_arith)
            requires
                n >= 2,
        ;
    }
}

pub fn hub_count(grid_size: usize) -> (result: usize)
    requires
        hub_total(grid_size as int) <= usize::MAX,
    ensures
        result == hub_total(grid_size as int),
{
    grid_size * grid_size
}

pub fn horizontal_rod_count(grid_size: usize) -> (result: usize)
    requires
        grid_size >= 1,
        horizontal_total(grid_size as int) <= usize::MAX,
    ensures
        result == horizontal_total(grid_size as int),
{
    proof {
        lemma_counts(grid_size as int);
    }
    grid_size * (grid_size - 1)
}

pub fn rod_count(grid_size: usize) -> (result: usize)
    requires
        grid_size >= 1,
        rod_total(grid_size as int) <= usize::MAX,
    ensures
        result == rod_total(grid_size as int),
{
    proof {
        lemma_counts(grid_size as int);
    }
    2 * horizontal_rod_count(grid_size)
}

} // verus!
