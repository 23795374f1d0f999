//! What stays the same in exact arithmetic when the net gets wider or the steps get shorter.

use crate::body::{hub_rest_points, BodyKind};
use crate::constants::{
    default_cylinder_length, default_fixed_hz, grid_spacing, velocity_damping_at_default_hz,
    DEFAULT_GRID_SIZE,
};
use crate::field::{
    exact, lemma_commute, lemma_count, lemma_difference, lemma_difference_of_sums,
    lemma_distribute, lemma_distribute_difference, lemma_exchange_factors, lemma_negated_product, lemma_negation,
    lemma_one, lemma_parts, lemma_quotient, lemma_take_nothing, lemma_undo, lemma_zero,
};
use crate::grid::lemma_row_index;
use crate::net::{
    centered, cylinder_span, cylinder_z, hub_position, initial_hub, node_position, predecessor,
    span_of,
};
use crate::order::{lemma_compare, lemma_ordered_is_exact, lemma_sign, ordered};
use crate::rotation_laws::{lemma_no_product_is_zero, lemma_positive};
use crate::scalar::{half, one, zero, Scalar};
use crate::scene::DemoScene;
use crate::simulation::{damping, Setup};
use crate::vector::Vec3;
use vstd::prelude::*;

verus! {

proof fn lemma_next_centered<S: Scalar>(grid_size: usize, index: usize)
    requires
        exact::<S>(),
        index < usize::MAX,
    ensures
        centered::<S>(grid_size, (index + 1) as usize).minus(centered(grid_size, index))
            == grid_spacing::<S>(),
{
    let middle = S::count(predecessor(grid_size)).times(half());
    let here = S::count(index);
    let next = S::count((index + 1) as usize);
    lemma_count::<S>(index);
    lemma_distribute_difference(next.minus(middle), here.minus(middle), grid_spacing());
    lemma_take_nothing(one::<S>());
    lemma_take_nothing(middle);
    lemma_difference_of_sums(here, one(), middle, zero());
    assert(next.minus(middle) == here.minus(middle).plus(one()));
    lemma_undo(one(), here.minus(middle));
    lemma_one(grid_spacing::<S>());
}

/// Neighbouring hubs start one grid spacing from each other, however wide the net is.
pub proof fn lemma_spacing_kept<S: Scalar>(
    scene: DemoScene,
    grid_size: usize,
    row: usize,
    column: usize,
)
    requires
        exact::<S>(),
        row < usize::MAX,
        column < usize::MAX,
    ensures
        node_position::<S>(scene, grid_size, row, (column + 1) as usize).minus(
            node_position(scene, grid_size, row, column),
        ) == (Vec3 { x: grid_spacing::<S>(), y: zero(), z: zero() }),
        node_position::<S>(scene, grid_size, (row + 1) as usize, column).minus(
            node_position(scene, grid_size, row, column),
        ) == (Vec3 {
            x: zero(),
            y: zero(),
            z: if scene == DemoScene::FallingBalls {
                grid_spacing::<S>()
            } else {
                grid_spacing::<S>().negated()
            },
        }),
{
    let here = node_position::<S>(scene, grid_size, row, column);
    lemma_next_centered::<S>(grid_size, column);
    lemma_next_centered::<S>(grid_size, row);
    lemma_nothing_left(here.x);
    lemma_nothing_left(here.y);
    lemma_nothing_left(here.z);
    if scene != DemoScene::FallingBalls {
        let count = S::count(row);
        let step = grid_spacing::<S>();
        lemma_count::<S>(row);
        lemma_distribute_difference(
            S::count((row + 1) as usize).negated(),
            count.negated(),
            step,
        );
        lemma_negation(count, one());
        lemma_commute(count.negated(), one::<S>().negated());
        lemma_undo(one::<S>().negated(), count.negated());
        lemma_negated_product(one(), step);
        lemma_one(step);
    }
}

proof fn lemma_nothing_left<S: Scalar>(a: S)
    requires
        exact::<S>(),
    ensures
        a.minus(a) == zero::<S>(),
{
    lemma_difference(a, a);
    lemma_zero(a);
}

/// The cylinder stands out of every net as far as out of the default net.
pub proof fn lemma_cylinder_margin<S: Scalar>(grid_size: usize)
    requires
        exact::<S>(),
    ensures
        cylinder_span::<S>(grid_size).minus(span_of(grid_size)) == default_cylinder_length::<
            S,
        >().minus(span_of(DEFAULT_GRID_SIZE)),
        cylinder_span::<S>(DEFAULT_GRID_SIZE) == default_cylinder_length::<S>(),
{
    let margin = default_cylinder_length::<S>().minus(span_of(DEFAULT_GRID_SIZE));
    lemma_undo(margin, span_of::<S>(grid_size));
    lemma_undo(default_cylinder_length::<S>(), span_of::<S>(DEFAULT_GRID_SIZE));
}

/// The line of the cylinder lies as far from the middle of every net as from that of the
/// default net.
pub proof fn lemma_cylinder_offset<S: Scalar>(grid_size: usize)
    requires
        exact::<S>(),
    ensures
        cylinder_z::<S>(grid_size).plus(span_of::<S>(grid_size).times(half())) == cylinder_z::<S>(
            DEFAULT_GRID_SIZE,
        ).plus(span_of::<S>(DEFAULT_GRID_SIZE).times(half())),
        cylinder_z::<S>(DEFAULT_GRID_SIZE) == S::fraction(23, 10).negated(),
{
    lemma_offset_of::<S>(grid_size);
    lemma_offset_of::<S>(DEFAULT_GRID_SIZE);
    let reach = span_of::<S>(DEFAULT_GRID_SIZE).times(half());
    lemma_undo(cylinder_z::<S>(DEFAULT_GRID_SIZE), reach);
    lemma_undo(S::fraction(23, 10).negated(), reach);
}

proof fn lemma_offset_of<S: Scalar>(grid_size: usize)
    requires
        exact::<S>(),
    ensures
        cylinder_z::<S>(grid_size).plus(span_of::<S>(grid_size).times(half())) == S::fraction(
            23,
            10,
        ).negated().plus(span_of::<S>(DEFAULT_GRID_SIZE).times(half())),
{
    let reach = span_of::<S>(grid_size).times(half());
    let offset = S::fraction(23, 10).negated().plus(
        span_of::<S>(DEFAULT_GRID_SIZE).times(half()),
    );
    lemma_negated_product(span_of::<S>(grid_size), half());
    lemma_commute(reach.negated(), offset);
    lemma_difference(offset, reach);
    lemma_undo(offset, reach);
}

/// A power of a power is the power of the product.
pub open spec fn powers_multiply<S: Scalar>(base: S, first: S, second: S) -> bool {
    base.power(first).power(second) == base.power(first.times(second))
}

/// Whatever the length of the steps, a second of them damps velocities alike.
pub proof fn lemma_damping_per_second<S: Scalar>(dt: S)
    requires
        exact::<S>(),
        forall|base: S, first: S, second: S| #[trigger] powers_multiply(base, first, second),
        dt != zero::<S>(),
    ensures
        damping(dt).power(one::<S>().over(dt)) == velocity_damping_at_default_hz::<S>().power(
            default_fixed_hz(),
        ),
{
    let rate = one::<S>().over(dt);
    assert(powers_multiply(
        velocity_damping_at_default_hz::<S>(),
        dt.times(default_fixed_hz()),
        rate,
    ));
    lemma_exchange_factors(dt, default_fixed_hz(), rate);
    lemma_quotient(one(), dt);
    lemma_one(default_fixed_hz::<S>());
}

/// A power above zero of a number between zero and one lies between them.
pub open spec fn power_stays_between<S: Scalar>(base: S, exponent: S) -> bool {
    zero::<S>().below(base) && base.below(one()) && zero::<S>().below(exponent)
        ==> zero::<S>().below(base.power(exponent)) && base.power(exponent).below(one())
}

/// A step of any length takes a part of a velocity, and never all of it.
pub proof fn lemma_damping_between<S: Scalar>(dt: S)
    requires
        ordered::<S>(),
        forall|base: S, exponent: S| #[trigger] power_stays_between(base, exponent),
        zero::<S>().below(velocity_damping_at_default_hz()),
        velocity_damping_at_default_hz::<S>().below(one()),
        zero::<S>().below(default_fixed_hz()),
        zero::<S>().below(dt),
    ensures
        zero::<S>().below(damping(dt)),
        damping(dt).below(one()),
{
    lemma_ordered_is_exact::<S>();
    let rate = default_fixed_hz::<S>();
    lemma_compare(zero(), dt);
    lemma_compare(zero(), rate);
    lemma_sign(dt, rate);
    if dt.times(rate) == zero::<S>() {
        lemma_no_product_is_zero(dt, rate);
    }
    lemma_positive(dt.times(rate));
    assert(power_stays_between(velocity_damping_at_default_hz::<S>(), dt.times(rate)));
}

/// One coordinate of the last and the first row or column about the middle of a net.
proof fn lemma_ends_centered<S: Scalar>(grid_size: usize)
    requires
        exact::<S>(),
        S::count(0) == zero::<S>(),
        grid_size >= 1,
    ensures
        ({
            let last = centered::<S>(grid_size, (grid_size - 1) as usize);
            let first = centered::<S>(grid_size, 0);
            let width = S::count((grid_size - 1) as usize).times(S::fraction(55, 100));
            &&& last.minus(first) == width
            &&& first.plus(last).times(half()) == zero::<S>()
        }),
{
    let count = S::count((grid_size - 1) as usize);
    let middle = count.times(half());
    let spacing = grid_spacing::<S>();
    let (last, first) = (count.minus(middle), zero::<S>().minus(middle));
    lemma_parts(count);
    lemma_undo(middle, middle);
    lemma_take_nothing(middle);
    assert(last == middle && first == middle.negated());
    lemma_difference(middle, middle.negated());
    lemma_negation(middle, middle);
    lemma_distribute_difference(last, first, spacing);
    lemma_zero(middle);
    lemma_commute(middle.negated(), middle);
    lemma_distribute(first, last, spacing);
    lemma_zero(spacing);
    lemma_zero(half::<S>());
}

/// How wide and how deep a net lies: as many spacings as it has gaps, evenly about the middle
/// in x. The net that catches balls lies evenly about the middle in z too; the others reach
/// back from their pinned edge, whose z is zero.
pub proof fn lemma_net_lies<S: Scalar>(scene: DemoScene, grid_size: usize, line: usize)
    requires
        exact::<S>(),
        S::count(0) == zero::<S>(),
        grid_size >= 1,
    ensures
        ({
            let end = (grid_size - 1) as usize;
            let width = S::count(end).times(S::fraction(55, 100));
            let left = node_position::<S>(scene, grid_size, line, 0);
            let right = node_position::<S>(scene, grid_size, line, end);
            let front = node_position::<S>(scene, grid_size, 0, line);
            let back = node_position::<S>(scene, grid_size, end, line);
            &&& right.x.minus(left.x) == width
            &&& left.x.plus(right.x).times(half()) == zero::<S>()
            &&& right.z == left.z
            &&& back.x == front.x
            &&& if scene == DemoScene::FallingBalls {
                &&& back.z.minus(front.z) == width
                &&& front.z.plus(back.z).times(half()) == zero::<S>()
                &&& left.y == S::fraction(17, 10) && right.y == left.y
            } else {
                &&& front.z == zero::<S>()
                &&& back.z == width.negated()
                &&& left.y == S::fraction(3, 1) && right.y == left.y
            }
        }),
{
    let count = S::count((grid_size - 1) as usize);
    lemma_ends_centered::<S>(grid_size);
    lemma_take_nothing(zero::<S>());
    lemma_zero(grid_spacing::<S>());
    lemma_negated_product(count, grid_spacing());
}

/// In exact arithmetic the cylinder of a demo stands out of its net as far as the default
/// cylinder out of the default net, lies along x under the middle of the net, and as far in
/// front of the middle along z as there; only the demo with the draped net has one.
pub proof fn lemma_demo_cylinder<S: Scalar>(setup: Setup<S>)
    requires
        exact::<S>(),
        S::count(0) == zero::<S>(),
        setup.well_formed(),
    ensures
        setup.cylinder is Some <==> setup.scene == DemoScene::CylinderDrape,
        setup.cylinder matches Some(cylinder) ==> ({
            let end = (setup.grid_size - 1) as usize;
            let left = node_position::<S>(setup.scene, setup.grid_size, 0, 0);
            let right = node_position::<S>(setup.scene, setup.grid_size, 0, end);
            let back = node_position::<S>(setup.scene, setup.grid_size, end, 0);
            let default_width = S::count(9).times(S::fraction(55, 100));
            &&& cylinder.length.minus(right.x.minus(left.x)) == S::single_fraction(
                580,
                100,
            ).minus(default_width)
            &&& cylinder.origin.x == left.x.plus(right.x).times(half())
            &&& cylinder.origin.y == S::fraction(175, 100)
            &&& cylinder.origin.z.minus(left.z.plus(back.z).times(half())) == S::fraction(
                23,
                10,
            ).negated().plus(default_width.times(half()))
            &&& cylinder.axis == (Vec3::<S> { x: one(), y: zero(), z: zero() })
            &&& cylinder.radius == S::single_fraction(70, 100)
        }),
{
    let grid_size = setup.grid_size;
    if setup.scene == DemoScene::CylinderDrape {
        lemma_net_lies::<S>(setup.scene, grid_size, 0);
        lemma_cylinder_margin::<S>(grid_size);
        lemma_offset_of::<S>(grid_size);
        lemma_half_behind(span_of::<S>(grid_size), cylinder_z::<S>(grid_size));
    }
}

/// The middle of a net that reaches back from zero.
pub proof fn lemma_half_behind<S: Scalar>(width: S, depth: S)
    requires
        exact::<S>(),
    ensures
        zero::<S>().plus(width.negated()).times(half()) == width.times(half()).negated(),
        depth.minus(zero::<S>().plus(width.negated()).times(half())) == depth.plus(
            width.times(half()),
        ),
{
    let part = width.times(half());
    lemma_take_nothing(width.negated());
    lemma_negated_product(width, half());
    lemma_difference(depth, part.negated());
    lemma_negation(part, part);
}

/// Hubs are numbered along their rows, and each starts in its column and row: so many spacings
/// from the middle in x, and in z behind the first row or from the middle.
pub proof fn lemma_hub_starts<S: Scalar>(
    scene: DemoScene,
    grid_size: usize,
    row: usize,
    column: usize,
)
    requires
        grid_size >= 2,
        row < grid_size,
        column < grid_size,
    ensures
        ({
            let hub = row * grid_size + column;
            let place = hub_position::<S>(scene, grid_size, hub as int);
            let body = initial_hub::<S>(scene, grid_size, hub as int);
            let middle = S::count((grid_size - 1) as usize).times(half());
            let spacing = S::fraction(55, 100);
            let corner = (row == 0 || row == grid_size - 1) && (column == 0 || column == grid_size
                - 1);
            &&& place.x == S::count(column).minus(middle).times(spacing)
            &&& place.z == (if scene == DemoScene::FallingBalls {
                S::count(row).minus(middle).times(spacing)
            } else {
                S::count(row).negated().times(spacing)
            })
            &&& body.kind == BodyKind::Hub { fixed: body.fixed }
            &&& body.fixed == (if scene == DemoScene::FallingBalls {
                corner
            } else {
                row == 0
            })
            &&& body.positions.p0 == place.plus(hub_rest_points::<S>().p0)
            &&& body.positions.p1 == place.plus(hub_rest_points::<S>().p1)
            &&& body.positions.p2 == place.plus(hub_rest_points::<S>().p2)
            &&& body.positions.p3 == place.plus(hub_rest_points::<S>().p3)
        }),
{
    let n = grid_size as int;
    lemma_row_index(n, n, row as int, column as int);
}

} // verus!
