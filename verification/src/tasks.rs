//! How the phases of a step are cut up for several threads.
//!
//! Each function here decides whether a phase is worth cutting up, and how. The pieces do not
//! depend on one another, and the laws at the end say that a piece is treated as it would be
//! in the whole.

use crate::balls::{chunk_bounds, chunk_end, lemma_bounds_local};
use crate::body::AffineBody;
use crate::constants::CONTACT_PROXY_CHUNK_SIZE;
use crate::grid::{end_hub, horizontal_total, hub_at, start_hub};
use crate::joints::{chunk_count, chunk_total};
use crate::scalar::Scalar;
use vstd::prelude::*;

verus! {

/// From how many bodies on the shape projection is cut up.
pub const PARALLEL_PROJECTION_BODY_THRESHOLD: usize = 1_500;

/// From how many bodies on each thread gets more pieces of the shape projection.
pub const HIGH_TASK_PROJECTION_BODY_THRESHOLD: usize = 4_000;

/// From how many bodies on the contacts with the cylinder are cut up.
pub const PARALLEL_CYLINDER_BODY_THRESHOLD: usize = 4_000;

/// From how many net bodies on the boxes of the chunks are cut up.
pub const PARALLEL_BALL_BOUND_BODY_THRESHOLD: usize = 4_000;

/// How many net bodies a thread has to get for its boxes at least.
pub const BALL_BOUND_BODIES_PER_TASK: usize = 1_024;

/// From how many joints on their residuals are cut up.
pub const PARALLEL_JOINT_THRESHOLD: usize = 15_000;

/// From how many joints on their corrections are cut up.
pub const PARALLEL_CORRECTION_JOINT_THRESHOLD: usize = 8_000;

/// The quotient rounded up.
pub open spec fn ceil_quotient(value: int, parts: int) -> int {
    (value + parts - 1) / parts
}

/// Cutting `value` items into `parts` parts of the rounded-up size reaches the end.
pub proof fn lemma_ceil_quotient(value: int, parts: int)
    requires
        value >= 0,
        parts > 0,
    ensures
        ceil_quotient(value, parts) * parts >= value,
        ceil_quotient(value, parts) * parts < value + parts,
        value > 0 ==> ceil_quotient(value, parts) > 0,
        ceil_quotient(value, parts) <= value,
        ceil_quotient(value, parts) >= 0,
{
    vstd::arithmetic::div_mod::lemma_fundamental_div_mod(value + parts - 1, parts);
    vstd::arithmetic::div_mod::lemma_mod_bound(value + parts - 1, parts);
    let quotient = ceil_quotient(value, parts);
    assert(parts * quotient == quotient * parts) by (nonlinear_arith);
    assert(quotient >= 0) by (nonlinear_arith)
        requires
            quotient * parts > -parts,
            parts > 0,
    ;
    if value > 0 {
        assert(quotient > 0) by (nonlinear_arith)
            requires
                quotient * parts >= value,
                value > 0,
                parts > 0,
        ;
    }
    assert(quotient <= value) by (nonlinear_arith)
        requires
            quotient * parts < value + parts,
            quotient >= 0,
            value >= 0,
            parts > 0,
    ;
}

/// Whether `size` is the least size of a piece at which a number of pieces hold all items.
pub open spec fn shares_out(items: int, pieces: int, size: int) -> bool {
    (size - 1) * pieces < items <= size * pieces
}

/// The rounded-up quotient shares items out, and no other size does.
pub proof fn lemma_shares_out(items: int, pieces: int, size: int)
    requires
        items >= 0,
        pieces > 0,
    ensures
        shares_out(items, pieces, ceil_quotient(items, pieces)),
        shares_out(items, pieces, size) ==> size == ceil_quotient(items, pieces),
{
    lemma_ceil_quotient(items, pieces);
    let quotient = ceil_quotient(items, pieces);
    assert((quotient - 1) * pieces == quotient * pieces - pieces) by (nonlinear_arith);
    if shares_out(items, pieces, size) {
        assert(size == quotient) by (nonlinear_arith)
            requires
                (size - 1) * pieces < items <= size * pieces,
                (quotient - 1) * pieces < items <= quotient * pieces,
                pieces > 0,
        ;
    }
}

pub fn div_ceil(value: usize, parts: usize) -> (result: usize)
    requires
        parts > 0,
    ensures
        result == ceil_quotient(value as int, parts as int),
{
    proof {
        lemma_ceil_quotient(value as int, parts as int);
        let v = value as int;
        let p = parts as int;
        vstd::arithmetic::div_mod::lemma_fundamental_div_mod(v, p);
        vstd::arithmetic::div_mod::lemma_mod_bound(v, p);
        assert(p * (v / p) == (v / p) * p) by (nonlinear_arith);
        assert((v / p + 1) * p == (v / p) * p + p) by (nonlinear_arith);
        if v % p == 0 {
            vstd::arithmetic::div_mod::lemma_fundamental_div_mod_converse(
                v + p - 1,
                p,
                v / p,
                p - 1,
            );
        } else {
            vstd::arithmetic::div_mod::lemma_fundamental_div_mod_converse(
                v + p - 1,
                p,
                v / p + 1,
                v % p - 1,
            );
        }
    }
    let whole: usize = value / parts;
    if value % parts > 0 {
        whole + 1
    } else {
        whole
    }
}

/// A product that stops at the greatest machine word.
pub open spec fn saturated_product(first: int, second: int) -> int {
    if first * second > usize::MAX {
        usize::MAX as int
    } else {
        first * second
    }
}

fn saturating_product(first: usize, second: usize) -> (result: usize)
    ensures
        result == saturated_product(first as int, second as int),
{
    match first.checked_mul(second) {
        Some(product) => product,
        None => usize::MAX,
    }
}

/// The lesser of two numbers, but at least one.
pub open spec fn task_number(first: int, second: int) -> int {
    let lesser = if first < second {
        first
    } else {
        second
    };
    if lesser < 1 {
        1
    } else {
        lesser
    }
}

fn count_tasks(first: usize, second: usize) -> (result: usize)
    ensures
        result == task_number(first as int, second as int),
{
    let lesser: usize = if first < second {
        first
    } else {
        second
    };
    if lesser < 1 {
        1
    } else {
        lesser
    }
}

/// How the shape projection is cut up.
#[derive(Clone, Copy, PartialEq, Eq, Structural, Debug)]
pub struct ProjectionTasks {
    /// How many hubs go into one piece.
    pub hubs_per_task: usize,
    /// How many rods go into one piece: an even number, so that rods stay in their pairs.
    pub rods_per_task: usize,
}

/// The even number that is not below a number and closest to it.
pub open spec fn next_even(value: int) -> int {
    value + value % 2
}

/// How the shape projection is cut up for a number of threads.
pub open spec fn projection_split(hubs: int, rods: int, bodies: int, threads: int) -> ProjectionTasks {
    let per_thread = if bodies < HIGH_TASK_PROJECTION_BODY_THRESHOLD {
        2int
    } else {
        4int
    };
    let hub_tasks = task_number(threads, hubs);
    let total = saturated_product(threads, per_thread);
    let left = if total > hub_tasks {
        total - hub_tasks
    } else {
        0
    };
    ProjectionTasks {
        hubs_per_task: ceil_quotient(hubs, hub_tasks) as usize,
        rods_per_task: next_even(ceil_quotient(rods, task_number(left, rods))) as usize,
    }
}

/// Whether and how the shape projection is cut up: not for few bodies, nor without threads.
pub fn projection_tasks(
    hubs: usize,
    rods: usize,
    bodies: usize,
    threads: Option<usize>,
) -> (result: Option<ProjectionTasks>)
    requires
        hubs > 0,
        0 < rods < usize::MAX,
    ensures
        result == (match threads {
            Some(count) if bodies >= PARALLEL_PROJECTION_BODY_THRESHOLD && count > 1 => Some(
                projection_split(hubs as int, rods as int, bodies as int, count as int),
            ),
            _ => None,
        }),
        result matches Some(tasks) ==> 0 < tasks.hubs_per_task <= hubs && 0 < tasks.rods_per_task
            <= rods + 1 && tasks.rods_per_task % 2 == 0,
{
    let count: usize = match threads {
        Some(count) => count,
        None => return None,
    };
    if bodies < PARALLEL_PROJECTION_BODY_THRESHOLD || count <= 1 {
        return None;
    }
    let per_thread: usize = if bodies < HIGH_TASK_PROJECTION_BODY_THRESHOLD {
        2
    } else {
        4
    };
    let total: usize = saturating_product(count, per_thread);
    let hub_tasks: usize = count_tasks(count, hubs);
    let left: usize = if total > hub_tasks {
        total - hub_tasks
    } else {
        0
    };
    let rod_tasks: usize = count_tasks(left, rods);
    proof {
        lemma_ceil_quotient(hubs as int, hub_tasks as int);
        lemma_ceil_quotient(rods as int, rod_tasks as int);
    }
    let hubs_per_task: usize = div_ceil(hubs, hub_tasks);
    let rods_each: usize = div_ceil(rods, rod_tasks);
    let rods_per_task: usize = rods_each + rods_each % 2;
    Some(ProjectionTasks { hubs_per_task, rods_per_task })
}

/// Whether the contacts with the cylinder are cut up, and how many bodies go into one piece.
pub fn cylinder_tasks(bodies: usize, threads: Option<usize>) -> (result: Option<usize>)
    ensures
        result == (match threads {
            Some(count) if bodies >= PARALLEL_CYLINDER_BODY_THRESHOLD && count > 0 => Some(
                ceil_quotient(bodies as int, saturated_product(count as int, 2)) as usize,
            ),
            _ => None,
        }),
        result matches Some(bodies_per_task) ==> 0 < bodies_per_task <= bodies,
        result is Some && 2 * threads->0 <= usize::MAX ==> shares_out(
            bodies as int,
            2 * threads->0,
            result->0 as int,
        ),
{
    let count: usize = match threads {
        Some(count) => count,
        None => return None,
    };
    if bodies < PARALLEL_CYLINDER_BODY_THRESHOLD || count == 0 {
        return None;
    }
    let task_count: usize = saturating_product(count, 2);
    proof {
        lemma_ceil_quotient(bodies as int, task_count as int);
        lemma_shares_out(bodies as int, task_count as int, 0);
    }
    Some(div_ceil(bodies, task_count))
}

/// How many tasks compute the boxes of the chunks.
pub open spec fn bound_task_number(net_bodies: int, threads: int) -> int {
    let wanted = ceil_quotient(net_bodies, BALL_BOUND_BODIES_PER_TASK as int);
    task_number(
        if threads < wanted {
            threads
        } else {
            wanted
        },
        chunk_total(net_bodies),
    )
}

/// Whether a number of pieces is the greatest for which there are enough threads, chunks, and
/// bodies, counting 1024 of these for a piece and the last ones as many; and whether pieces of
/// a size share out the chunks.
pub open spec fn chunks_shared_out(bodies: int, threads: int, pieces: int, size: int) -> bool {
    &&& shares_out(chunk_total(bodies), pieces, size)
    &&& 1 < pieces <= threads
    &&& pieces <= chunk_total(bodies)
    &&& (pieces - 1) * 1024 < bodies
    &&& pieces == threads || pieces == chunk_total(bodies) || bodies <= pieces * 1024
}

/// Whether the chunks are shared out over as many pieces as there can be.
pub open spec fn chunks_well_shared(bodies: int, threads: int, size: int) -> bool {
    exists|pieces: int| #[trigger] chunks_shared_out(bodies, threads, pieces, size)
}

/// Whether the boxes of the chunks are cut up, and how many chunks go into one piece. A piece
/// holds the bodies of its chunks.
pub fn ball_bound_tasks(net_bodies: usize, threads: Option<usize>) -> (result: Option<usize>)
    requires
        net_bodies <= usize::MAX - CONTACT_PROXY_CHUNK_SIZE,
    ensures
        result == (match threads {
            Some(count) if net_bodies >= PARALLEL_BALL_BOUND_BODY_THRESHOLD && bound_task_number(
                net_bodies as int,
                count as int,
            ) > 1 => Some(
                ceil_quotient(
                    chunk_total(net_bodies as int),
                    bound_task_number(net_bodies as int, count as int),
                ) as usize,
            ),
            _ => None,
        }),
        result matches Some(chunks_per_task) ==> 0 < chunks_per_task && chunks_per_task
            * CONTACT_PROXY_CHUNK_SIZE <= usize::MAX,
        result is Some ==> chunks_well_shared(
            net_bodies as int,
            threads->0 as int,
            result->0 as int,
        ),
{
    let count: usize = match threads {
        Some(count) => count,
        None => return None,
    };
    if net_bodies < PARALLEL_BALL_BOUND_BODY_THRESHOLD {
        return None;
    }
    let wanted: usize = div_ceil(net_bodies, BALL_BOUND_BODIES_PER_TASK);
    let chunks: usize = chunk_count(net_bodies);
    let task_count: usize = count_tasks(
        if count < wanted {
            count
        } else {
            wanted
        },
        chunks,
    );
    if task_count <= 1 {
        return None;
    }
    proof {
        lemma_ceil_quotient(chunks as int, task_count as int);
        lemma_shares_out(chunks as int, task_count as int, 0);
        let (bodies, asked, pieces) = (net_bodies as int, wanted as int, task_count as int);
        lemma_shares_out(bodies, 1024, 0);
        assert((asked - 1) * 1024 < bodies <= asked * 1024);
        assert(pieces <= asked);
    }
    let chunks_per_task: usize = div_ceil(chunks, task_count);
    assert(chunks_shared_out(
        net_bodies as int,
        threads->0 as int,
        task_count as int,
        chunks_per_task as int,
    ));
    Some(chunks_per_task)
}

/// How the corrections of the joint solve are cut up.
#[derive(Clone, Copy, PartialEq, Eq, Structural, Debug)]
pub struct CorrectionTasks {
    /// How many hubs go into one piece.
    pub hubs_per_task: usize,
    /// How many rows of horizontal rods go into one piece.
    pub horizontal_rows_per_task: usize,
    /// How many rows of vertical rods go into one piece.
    pub vertical_rows_per_task: usize,
}

/// How many of the threads take hubs: a third of them, but at least one.
pub open spec fn hub_task_number(threads: int) -> int {
    if threads / 3 < 1 {
        1
    } else {
        threads / 3
    }
}

/// How many of the threads take rods: those that take no hubs, but at least one.
pub open spec fn rod_task_number(threads: int) -> int {
    if threads - hub_task_number(threads) < 1 {
        1
    } else {
        threads - hub_task_number(threads)
    }
}

fn share_threads(threads: usize) -> (result: (usize, usize))
    ensures
        result.0 == hub_task_number(threads as int),
        result.1 == rod_task_number(threads as int),
{
    let hub_tasks: usize = if threads / 3 < 1 {
        1
    } else {
        threads / 3
    };
    let rod_tasks: usize = if threads > hub_tasks {
        threads - hub_tasks
    } else {
        1
    };
    (hub_tasks, rod_tasks)
}

/// How the corrections are cut up for a number of threads.
pub open spec fn correction_split(hubs: int, rods: int, n: int, threads: int) -> CorrectionTasks {
    let target = ceil_quotient(rods, rod_task_number(threads));
    CorrectionTasks {
        hubs_per_task: ceil_quotient(hubs, hub_task_number(threads)) as usize,
        horizontal_rows_per_task: ceil_quotient(target, n - 1) as usize,
        vertical_rows_per_task: ceil_quotient(target, n) as usize,
    }
}

/// Whether and how the corrections of the joint solve are cut up: into whole rows of rods,
/// and not for few joints, nor without threads.
pub fn correction_tasks(
    hubs: usize,
    rods: usize,
    joints: usize,
    grid_size: usize,
    threads: Option<usize>,
) -> (result: Option<CorrectionTasks>)
    requires
        grid_size >= 2,
        hubs > 0,
        rods > 0,
    ensures
        result == (match threads {
            Some(count) if joints >= PARALLEL_CORRECTION_JOINT_THRESHOLD && count > 1 => Some(
                correction_split(hubs as int, rods as int, grid_size as int, count as int),
            ),
            _ => None,
        }),
        result matches Some(tasks) ==> 0 < tasks.hubs_per_task <= hubs && 0
            < tasks.horizontal_rows_per_task <= rods && 0 < tasks.vertical_rows_per_task <= rods,
{
    let count: usize = match threads {
        Some(count) => count,
        None => return None,
    };
    if joints < PARALLEL_CORRECTION_JOINT_THRESHOLD || count <= 1 {
        return None;
    }
    let (hub_tasks, rod_tasks) = share_threads(count);
    proof {
        lemma_ceil_quotient(hubs as int, hub_tasks as int);
        lemma_ceil_quotient(rods as int, rod_tasks as int);
    }
    let hubs_per_task: usize = div_ceil(hubs, hub_tasks);
    let target: usize = div_ceil(rods, rod_tasks);
    proof {
        lemma_ceil_quotient(target as int, grid_size - 1);
        lemma_ceil_quotient(target as int, grid_size as int);
    }
    Some(
        CorrectionTasks {
            hubs_per_task,
            horizontal_rows_per_task: div_ceil(target, grid_size - 1),
            vertical_rows_per_task: div_ceil(target, grid_size),
        },
    )
}

/// Whether the residuals of the joints are cut up, and how many rods go into one piece.
pub fn residual_tasks(rods: usize, joints: usize, threads: Option<usize>) -> (result: Option<usize>)
    requires
        rods > 0,
    ensures
        result == (match threads {
            Some(count) if joints >= PARALLEL_JOINT_THRESHOLD && task_number(
                count as int,
                rods as int,
            ) > 1 => Some(
                ceil_quotient(rods as int, task_number(count as int, rods as int)) as usize,
            ),
            _ => None,
        }),
        result matches Some(rods_per_task) ==> 0 < rods_per_task <= rods,
        result is Some ==> shares_out(
            rods as int,
            if threads->0 < rods {
                threads->0 as int
            } else {
                rods as int
            },
            result->0 as int,
        ),
{
    let count: usize = match threads {
        Some(count) => count,
        None => return None,
    };
    if joints < PARALLEL_JOINT_THRESHOLD {
        return None;
    }
    let task_count: usize = count_tasks(count, rods);
    if task_count <= 1 {
        return None;
    }
    proof {
        lemma_ceil_quotient(rods as int, task_count as int);
        lemma_shares_out(rods as int, task_count as int, 0);
    }
    Some(div_ceil(rods, task_count))
}

/// The shape projection has a piece of hubs for every thread, or for every hub where there are
/// fewer. Hubs and rods together have two pieces for every thread, from 4000 bodies on four,
/// where there are as many rods; pieces are as small as that allows, and pieces of rods even.
pub proof fn lemma_projection_split(hubs: int, rods: int, bodies: int, threads: int, pieces: int)
    requires
        0 < hubs <= usize::MAX,
        0 < rods < usize::MAX,
        1 < threads,
        4 * threads <= usize::MAX,
        1 <= pieces <= threads && pieces <= hubs,
        pieces == threads || pieces == hubs,
    ensures
        ({
            let tasks = projection_split(hubs, rods, bodies, threads);
            let left = if bodies < 4000 {
                2 * threads - pieces
            } else {
                4 * threads - pieces
            };
            let size = tasks.rods_per_task as int;
            &&& shares_out(hubs, pieces, tasks.hubs_per_task as int)
            &&& size % 2 == 0
            &&& left < rods ==> shares_out(rods, left, size) || shares_out(rods, left, size - 1)
            &&& left >= rods ==> size == 2
        }),
{
    let left = if bodies < 4000 {
        2 * threads - pieces
    } else {
        4 * threads - pieces
    };
    lemma_ceil_quotient(hubs, pieces);
    lemma_shares_out(hubs, pieces, 0);
    lemma_ceil_quotient(rods, left);
    lemma_shares_out(rods, left, 0);
    lemma_ceil_quotient(rods, rods);
    lemma_shares_out(rods, rods, 1);
}

/// A third of the threads, rounded down but at least one, correct hubs and the others rods. A
/// piece of rods has as many whole rows as hold the share of its thread, and no more.
pub proof fn lemma_correction_split(
    hubs: int,
    rods: int,
    n: int,
    threads: int,
    hub_threads: int,
    target: int,
)
    requires
        0 < hubs <= usize::MAX,
        0 < rods <= usize::MAX,
        n >= 2,
        1 < threads,
        threads < 3 ==> hub_threads == 1,
        threads >= 3 ==> 3 * hub_threads <= threads < 3 * hub_threads + 3,
        shares_out(rods, threads - hub_threads, target),
    ensures
        ({
            let tasks = correction_split(hubs, rods, n, threads);
            &&& shares_out(hubs, hub_threads, tasks.hubs_per_task as int)
            &&& shares_out(target, n - 1, tasks.horizontal_rows_per_task as int)
            &&& shares_out(target, n, tasks.vertical_rows_per_task as int)
        }),
{
    lemma_ceil_quotient(hubs, hub_threads);
    lemma_shares_out(hubs, hub_threads, 0);
    lemma_ceil_quotient(rods, threads - hub_threads);
    lemma_shares_out(rods, threads - hub_threads, target);
    lemma_ceil_quotient(target, n - 1);
    lemma_shares_out(target, n - 1, 0);
    lemma_ceil_quotient(target, n);
    lemma_shares_out(target, n, 0);
}

/// A horizontal rod of a piece that starts with row `first_row` has the hubs that it has in
/// the whole net.
pub proof fn lemma_horizontal_piece(n: int, first_row: int, index: int)
    requires
        n >= 2,
        0 <= first_row,
        0 <= index,
        first_row * (n - 1) + index < horizontal_total(n),
    ensures
        hub_at(n, first_row + index / (n - 1), index % (n - 1)) == start_hub(
            n,
            first_row * (n - 1) + index,
        ),
        hub_at(n, first_row + index / (n - 1), index % (n - 1)) + 1 == end_hub(
            n,
            first_row * (n - 1) + index,
        ),
{
    let len = n - 1;
    let rod = first_row * len + index;
    assert(0 <= first_row * len) by (nonlinear_arith)
        requires
            0 <= first_row,
            len >= 1,
    ;
    vstd::arithmetic::div_mod::lemma_fundamental_div_mod(index, len);
    vstd::arithmetic::div_mod::lemma_mod_bound(index, len);
    assert(index / len >= 0) by (nonlinear_arith)
        requires
            len * (index / len) > -len,
            len >= 1,
    ;
    assert((first_row + index / len) * len == first_row * len + len * (index / len))
        by (nonlinear_arith);
    vstd::arithmetic::div_mod::lemma_fundamental_div_mod_converse(
        rod,
        len,
        first_row + index / len,
        index % len,
    );
}

/// A vertical rod of a piece that starts with row `first_row` has the hubs that it has in the
/// whole net.
pub proof fn lemma_vertical_piece(n: int, first_row: int, index: int)
    requires
        n >= 2,
        0 <= first_row,
        0 <= index,
    ensures
        first_row * n + index == start_hub(n, horizontal_total(n) + first_row * n + index),
        first_row * n + index + n == end_hub(n, horizontal_total(n) + first_row * n + index),
{
    assert(0 <= first_row * n) by (nonlinear_arith)
        requires
            0 <= first_row,
            n >= 2,
    ;
}

/// The box of a chunk of a piece that starts with chunk `first_chunk` is its box in the whole
/// net.
pub proof fn lemma_bounds_piece<S: Scalar>(
    bodies: Seq<AffineBody<S>>,
    net_bodies: int,
    first_chunk: int,
    chunks: int,
    chunk: int,
)
    requires
        0 <= net_bodies <= bodies.len(),
        0 <= first_chunk,
        0 <= chunk < chunks,
        (first_chunk + chunk) * CONTACT_PROXY_CHUNK_SIZE < net_bodies,
    ensures
        ({
            let first = first_chunk * CONTACT_PROXY_CHUNK_SIZE;
            let piece = bodies.subrange(first, chunk_end(first_chunk + chunks - 1, net_bodies));
            chunk_bounds(piece, chunk, piece.len() as int) == chunk_bounds(
                bodies,
                first_chunk + chunk,
                net_bodies,
            )
        }),
{
    let first = first_chunk * CONTACT_PROXY_CHUNK_SIZE;
    let piece = bodies.subrange(first, chunk_end(first_chunk + chunks - 1, net_bodies));
    lemma_bounds_local(
        piece,
        bodies,
        chunk * CONTACT_PROXY_CHUNK_SIZE,
        chunk_end(chunk, piece.len() as int),
        first,
    );
}

} // verus!
