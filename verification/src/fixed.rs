//! Fixed-point numbers.

use crate::scalar::Scalar;
use crate::vector::Vec3;
use vstd::prelude::*;

verus! {

/// The stored value of one.
pub const UNIT: i64 = 0x1_0000_0000;

/// A number of 31 whole and 32 fractional bits and a sign. What does not fit goes to the
/// nearest bound; what falls between two numbers goes to the lower one.
#[derive(Clone, Copy, PartialEq, Eq, Structural, Debug)]
pub struct Fixed {
    pub raw: i64,
}

/// The stored value nearest to `value`.
pub open spec fn saturated(value: int) -> i64 {
    if value > i64::MAX {
        i64::MAX
    } else if value < i64::MIN {
        i64::MIN
    } else {
        value as i64
    }
}

fn saturate(value: i128) -> (result: i64)
    ensures
        result == saturated(value as int),
{
    if value > i64::MAX as i128 {
        i64::MAX
    } else if value < i64::MIN as i128 {
        i64::MIN
    } else {
        value as i64
    }
}

/// The quotient rounded down.
fn floor_quotient(numerator: i128, denominator: i128) -> (result: i128)
    requires
        0 < denominator <= 0x8000_0000_0000_0000,
        -0x4000_0000_0000_0000_0000_0000_0000_0000 <= numerator,
        numerator <= 0x4000_0000_0000_0000_0000_0000_0000_0000,
    ensures
        result == numerator as int / denominator as int,
{
    if numerator >= 0 {
        numerator / denominator
    } else {
        let quotient: i128 = (-numerator + denominator - 1) / denominator;
        proof {
            let n = numerator as int;
            let d = denominator as int;
            let q = quotient as int;
            vstd::arithmetic::div_mod::lemma_fundamental_div_mod(-n + d - 1, d);
            assert(d * (-q) == -(d * q)) by (nonlinear_arith);
            vstd::arithmetic::div_mod::lemma_fundamental_div_mod_converse(n, d, -q, n + d * q);
            assert(q <= -n + d - 1) by (nonlinear_arith)
                requires
                    d * q <= -n + d - 1,
                    d >= 1,
                    -n + d - 1 >= 0,
            ;
        }
        -quotient
    }
}

/// Whether `root` is the greatest integer whose square is at most `value`.
pub open spec fn is_integer_root(root: int, value: int) -> bool {
    0 <= root && root * root <= value && value < (root + 1) * (root + 1)
}

proof fn lemma_integer_root_unique(first: int, second: int, value: int)
    requires
        is_integer_root(first, value),
        is_integer_root(second, value),
    ensures
        first == second,
{
    if first < second {
        assert((first + 1) * (first + 1) <= second * second) by (nonlinear_arith)
            requires
                0 <= first < second,
        ;
    }
    if second < first {
        assert((second + 1) * (second + 1) <= first * first) by (nonlinear_arith)
            requires
                0 <= second < first,
        ;
    }
}

/// The greatest integer whose square is at most `value`.
pub open spec fn integer_root(value: int) -> int {
    choose|root: int| is_integer_root(root, value)
}

fn integer_sqrt(value: u128) -> (result: u64)
    requires
        value <= 0x7fff_ffff_ffff_ffff_0000_0000,
    ensures
        is_integer_root(result as int, value as int),
        result == integer_root(value as int),
{
    let mut low: u64 = 0;
    let mut high: u64 = 0x1_0000_0000_0000;
    assert(0x1_0000_0000_0000int * 0x1_0000_0000_0000int
        == 0x1_0000_0000_0000_0000_0000_0000int) by (nonlinear_arith);
    while high - low > 1
        invariant
            low < high <= 0x1_0000_0000_0000,
            low * low <= value < high * high,
        decreases high - low,
    {
        let middle: u64 = low + (high - low) / 2;
        assert(middle * middle <= 0x1_0000_0000_0000_0000_0000_0000) by (nonlinear_arith)
            requires
                0 <= middle <= 0x1_0000_0000_0000,
        ;
        if (middle as u128) * (middle as u128) <= value {
            low = middle;
        } else {
            high = middle;
        }
    }
    proof {
        assert(high == low + 1);
        assert(is_integer_root(low as int, value as int));
        lemma_integer_root_unique(low as int, integer_root(value as int), value as int);
    }
    low
}

/// The product of `steps` factors `base`, taken from the left.
pub open spec fn repeated_product(base: Fixed, steps: nat) -> Fixed
    decreases steps,
{
    if steps == 0 {
        Fixed { raw: UNIT }
    } else {
        repeated_product(base, (steps - 1) as nat).times(base)
    }
}

impl Scalar for Fixed {
    open spec fn plus(self, other: Self) -> Self {
        Fixed { raw: saturated(self.raw + other.raw) }
    }

    fn add(self, other: Self) -> (result: Self) {
        Fixed { raw: saturate(self.raw as i128 + other.raw as i128) }
    }

    open spec fn minus(self, other: Self) -> Self {
        Fixed { raw: saturated(self.raw - other.raw) }
    }

    fn sub(self, other: Self) -> (result: Self) {
        Fixed { raw: saturate(self.raw as i128 - other.raw as i128) }
    }

    open spec fn times(self, other: Self) -> Self {
        Fixed { raw: saturated((self.raw * other.raw) / (UNIT as int)) }
    }

    fn mul(self, other: Self) -> (result: Self) {
        proof {
            lemma_product_bound(self.raw as int, other.raw as int);
        }
        let product: i128 = (self.raw as i128) * (other.raw as i128);
        Fixed { raw: saturate(floor_quotient(product, UNIT as i128)) }
    }

    /// Division by zero gives zero.
    open spec fn over(self, other: Self) -> Self {
        Fixed {
            raw: if other.raw == 0 {
                0
            } else if other.raw > 0 {
                saturated((self.raw * (UNIT as int)) / (other.raw as int))
            } else {
                saturated((-self.raw * (UNIT as int)) / (-other.raw as int))
            },
        }
    }

    fn div(self, other: Self) -> (result: Self) {
        proof {
            lemma_product_bound(self.raw as int, UNIT as int);
        }
        let wide: i128 = self.raw as i128 * UNIT as i128;
        if other.raw == 0 {
            Fixed { raw: 0 }
        } else if other.raw > 0 {
            Fixed { raw: saturate(floor_quotient(wide, other.raw as i128)) }
        } else {
            Fixed { raw: saturate(floor_quotient(-wide, -(other.raw as i128))) }
        }
    }

    open spec fn negated(self) -> Self {
        Fixed { raw: saturated(-self.raw) }
    }

    fn neg(self) -> (result: Self) {
        Fixed { raw: saturate(-(self.raw as i128)) }
    }

    open spec fn magnitude(self) -> Self {
        if self.raw < 0 {
            self.negated()
        } else {
            self
        }
    }

    fn abs(self) -> (result: Self) {
        if self.raw < 0 {
            self.neg()
        } else {
            self
        }
    }

    /// Numbers below zero have the root zero.
    open spec fn root(self) -> Self {
        Fixed {
            raw: if self.raw <= 0 {
                0
            } else {
                integer_root(self.raw * (UNIT as int)) as i64
            },
        }
    }

    fn sqrt(self) -> (result: Self) {
        if self.raw <= 0 {
            Fixed { raw: 0 }
        } else {
            let root: u64 = integer_sqrt(self.raw as u128 * UNIT as u128);
            assert(root <= 0x7fff_ffff_ffff_ffff) by (nonlinear_arith)
                requires
                    root * root <= self.raw * UNIT,
                    self.raw <= 0x7fff_ffff_ffff_ffff,
                    UNIT == 0x1_0000_0000,
            ;
            Fixed { raw: root as i64 }
        }
    }

    /// Only the whole part of the exponent counts, and one below zero counts as zero.
    open spec fn power(self, exponent: Self) -> Self {
        if exponent.raw <= 0 {
            Fixed { raw: UNIT }
        } else {
            repeated_product(self, (exponent.raw as int / UNIT as int) as nat)
        }
    }

    fn powf(self, exponent: Self) -> (result: Self) {
        let mut product: Fixed = Fixed { raw: UNIT };
        if exponent.raw > 0 {
            let steps: i64 = exponent.raw / UNIT;
            let mut step: i64 = 0;
            while step < steps
                invariant
                    0 <= step <= steps,
                    product == repeated_product(self, step as nat),
                decreases steps - step,
            {
                product = product.mul(self);
                step = step + 1;
            }
        }
        product
    }

    open spec fn below(self, other: Self) -> bool {
        self.raw < other.raw
    }

    fn lt(self, other: Self) -> (result: bool) {
        self.raw < other.raw
    }

    open spec fn at_most(self, other: Self) -> bool {
        self.raw <= other.raw
    }

    fn le(self, other: Self) -> (result: bool) {
        self.raw <= other.raw
    }

    open spec fn finite(self) -> bool {
        true
    }

    fn is_finite(self) -> (result: bool) {
        true
    }

    open spec fn bits(self) -> u64 {
        self.raw as u64
    }

    fn to_bits(self) -> (result: u64) {
        self.raw as u64
    }

    open spec fn fraction(numerator: i64, denominator: i64) -> Self {
        Fixed { raw: saturated((numerator * UNIT) / (denominator as int)) }
    }

    fn from_fraction(numerator: i64, denominator: i64) -> (result: Self) {
        proof {
            lemma_product_bound(numerator as int, UNIT as int);
        }
        Fixed {
            raw: saturate(floor_quotient(numerator as i128 * UNIT as i128, denominator as i128)),
        }
    }

    open spec fn single_fraction(numerator: i64, denominator: i64) -> Self {
        Self::fraction(numerator, denominator)
    }

    fn from_single_fraction(numerator: i64, denominator: i64) -> (result: Self) {
        Self::from_fraction(numerator, denominator)
    }

    open spec fn count(value: usize) -> Self {
        Fixed { raw: saturated(value * UNIT) }
    }

    fn from_count(value: usize) -> (result: Self) {
        Fixed { raw: saturate(value as i128 * UNIT as i128) }
    }

    open spec fn unbounded() -> Self {
        Fixed { raw: i64::MAX }
    }

    fn infinity() -> (result: Self) {
        Fixed { raw: i64::MAX }
    }

    /// With `c` the vector product of the x axis and the direction and `d` their inner
    /// product, the point `p` goes to `p + c x p + (c x (c x p)) / (1 + d)`. The first
    /// component of `c` is zero and the others are `-direction.z` and `direction.y`.
    open spec fn turned(direction: Vec3<Self>, point: Vec3<Self>) -> Vec3<Self> {
        let y = direction.z.negated();
        let z = direction.y;
        let first = crossed_with(y, z, point);
        let second = crossed_with(y, z, first);
        let divisor = Fixed { raw: UNIT }.plus(direction.x);
        Vec3 {
            x: point.x.plus(first.x).plus(second.x.over(divisor)),
            y: point.y.plus(first.y).plus(second.y.over(divisor)),
            z: point.z.plus(first.z).plus(second.z.over(divisor)),
        }
    }

    fn turn_from_x(direction: Vec3<Self>, point: Vec3<Self>) -> (result: Vec3<Self>) {
        let y = direction.z.neg();
        let z = direction.y;
        let first = cross_with(y, z, point);
        let second = cross_with(y, z, first);
        let divisor = Fixed { raw: UNIT }.add(direction.x);
        Vec3 {
            x: point.x.add(first.x).add(second.x.div(divisor)),
            y: point.y.add(first.y).add(second.y.div(divisor)),
            z: point.z.add(first.z).add(second.z.div(divisor)),
        }
    }
}

/// The vector product of `(0, y, z)` and `point`.
pub open spec fn crossed_with(y: Fixed, z: Fixed, point: Vec3<Fixed>) -> Vec3<Fixed> {
    Vec3 {
        x: y.times(point.z).minus(z.times(point.y)),
        y: z.times(point.x),
        z: y.times(point.x).negated(),
    }
}

fn cross_with(y: Fixed, z: Fixed, point: Vec3<Fixed>) -> (result: Vec3<Fixed>)
    ensures
        result == crossed_with(y, z, point),
{
    Vec3 {
        x: y.mul(point.z).sub(z.mul(point.y)),
        y: z.mul(point.x),
        z: y.mul(point.x).neg(),
    }
}

/// Sums, differences and opposites that fit are exact, and those that do not are the nearest
/// bound.
pub proof fn lemma_sums_exact(a: Fixed, b: Fixed)
    ensures
        ({
            let sum = a.plus(b).raw;
            let difference = a.minus(b).raw;
            let opposite = a.negated().raw;
            &&& sum == a.raw + b.raw || (sum == i64::MAX && a.raw + b.raw > sum) || (sum
                == i64::MIN && a.raw + b.raw < sum)
            &&& difference == a.raw - b.raw || (difference == i64::MAX && a.raw - b.raw
                > difference) || (difference == i64::MIN && a.raw - b.raw < difference)
            &&& opposite == -a.raw || (a.raw == i64::MIN && opposite == i64::MAX)
            &&& a.magnitude().raw >= 0
            &&& a.magnitude() == a || a.magnitude() == a.negated()
        }),
{
}

/// A product that fits is the greatest number that is not above the true one.
pub proof fn lemma_product_rounds_down(a: Fixed, b: Fixed)
    ensures
        ({
            let product = a.times(b).raw;
            &&& product == i64::MIN || product * UNIT <= a.raw * b.raw
            &&& product == i64::MAX || a.raw * b.raw < (product + 1) * UNIT
        }),
{
    lemma_floor(a.raw * b.raw, UNIT as int);
}

/// A quotient that fits is the greatest number that is not above the true one; by zero it is
/// zero.
pub proof fn lemma_quotient_rounds_down(a: Fixed, b: Fixed)
    ensures
        ({
            let quotient = a.over(b).raw;
            &&& b.raw == 0 ==> quotient == 0
            &&& b.raw > 0 ==> quotient == i64::MIN || quotient * b.raw <= a.raw * UNIT
            &&& b.raw > 0 ==> quotient == i64::MAX || a.raw * UNIT < (quotient + 1) * b.raw
            &&& b.raw < 0 ==> quotient == i64::MIN || quotient * b.raw >= a.raw * UNIT
            &&& b.raw < 0 ==> quotient == i64::MAX || a.raw * UNIT > (quotient + 1) * b.raw
        }),
{
    let quotient = a.over(b).raw as int;
    let (n, d) = (a.raw * UNIT, b.raw as int);
    if d > 0 {
        lemma_floor(n, d);
    }
    if d < 0 {
        assert(-a.raw * (UNIT as int) == -n) by (nonlinear_arith)
            requires
                n == a.raw * UNIT,
        ;
        lemma_floor(-n, -d);
        assert(quotient * (-d) == -(quotient * d)) by (nonlinear_arith);
        assert((quotient + 1) * (-d) == -((quotient + 1) * d)) by (nonlinear_arith);
    }
}

proof fn lemma_floor(numerator: int, denominator: int)
    requires
        denominator > 0,
    ensures
        ({
            let stored = saturated(numerator / denominator);
            &&& stored == i64::MIN || stored * denominator <= numerator
            &&& stored == i64::MAX || numerator < (stored + 1) * denominator
        }),
{
    let quotient = numerator / denominator;
    let stored = saturated(quotient) as int;
    vstd::arithmetic::div_mod::lemma_fundamental_div_mod(numerator, denominator);
    vstd::arithmetic::div_mod::lemma_mod_bound(numerator, denominator);
    assert(quotient * denominator <= numerator < (quotient + 1) * denominator) by (nonlinear_arith)
        requires
            numerator == denominator * quotient + numerator % denominator,
            0 <= numerator % denominator < denominator,
    ;
    if stored < quotient {
        assert(stored * denominator <= quotient * denominator) by (nonlinear_arith)
            requires
                stored <= quotient,
                denominator > 0,
        ;
    }
    if stored > quotient {
        assert((quotient + 1) * denominator <= (stored + 1) * denominator) by (nonlinear_arith)
            requires
                stored >= quotient,
                denominator > 0,
        ;
    }
}

proof fn lemma_integer_root_exists(value: int) -> (root: int)
    requires
        value >= 0,
    ensures
        is_integer_root(root, value),
    decreases value,
{
    if value == 0 {
        0
    } else {
        let root = lemma_integer_root_exists(value - 1);
        if value < (root + 1) * (root + 1) {
            root
        } else {
            let next = root + 1;
            assert(next * next < (next + 1) * (next + 1)) by (nonlinear_arith)
                requires
                    next >= 1,
            ;
            next
        }
    }
}

/// The root of a number above zero is the greatest number whose square is not above it.
pub proof fn lemma_root_rounds_down(a: Fixed)
    requires
        a.raw > 0,
    ensures
        a.root().raw >= 0,
        a.root().raw * a.root().raw <= a.raw * UNIT,
        a.raw * UNIT < (a.root().raw + 1) * (a.root().raw + 1),
{
    let value = a.raw * UNIT;
    let witness = lemma_integer_root_exists(value);
    let root = integer_root(value);
    assert(is_integer_root(root, value));
    assert(root <= 0x7fff_ffff_ffff_ffff) by (nonlinear_arith)
        requires
            root * root <= a.raw * UNIT,
            a.raw <= 0x7fff_ffff_ffff_ffff,
            UNIT == 0x1_0000_0000,
    ;
}

/// One more in the exponent is one more factor, and an exponent below one gives one.
pub proof fn lemma_powers_go_up(base: Fixed, exponent: Fixed)
    ensures
        exponent.raw < UNIT ==> base.power(exponent) == (Fixed { raw: UNIT }),
        0 <= exponent.raw <= i64::MAX - UNIT ==> base.power(
            exponent.plus((Fixed { raw: UNIT })),
        ) == base.power(exponent).times(base),
{
    let whole = exponent.raw as int / UNIT as int;
    vstd::arithmetic::div_mod::lemma_fundamental_div_mod(exponent.raw as int, UNIT as int);
    vstd::arithmetic::div_mod::lemma_mod_bound(exponent.raw as int, UNIT as int);
    if 0 <= exponent.raw < UNIT {
        assert(whole == 0);
    }
    if 0 <= exponent.raw <= i64::MAX - UNIT {
        let later = exponent.plus(Fixed { raw: UNIT });
        assert(later.raw == exponent.raw + UNIT);
        assert(later.raw as int / UNIT as int == whole + 1);
        assert(base.power(exponent) == repeated_product(base, whole as nat));
    }
}

/// Turning the x axis to a direction keeps its y and z: the x axis itself goes there, and where
/// the direction is the x axis nothing moves.
pub proof fn lemma_turn_from_x(direction: Vec3<Fixed>, point: Vec3<Fixed>)
    requires
        direction.z.raw > i64::MIN,
    ensures
        ({
            let (nothing, unit) = (Fixed { raw: 0 }, Fixed { raw: UNIT });
            let axis = Vec3 { x: unit, y: nothing, z: nothing };
            &&& Fixed::turned(direction, axis).y == direction.y
            &&& Fixed::turned(direction, axis).z == direction.z
            &&& Fixed::turned(axis, point) == point
        }),
{
    let (nothing, unit) = (Fixed { raw: 0 }, Fixed { raw: UNIT });
    let y = direction.z.negated();
    let z = direction.y;
    assert forall|a: Fixed| #[trigger] a.times(unit) == a by {
        vstd::arithmetic::div_mod::lemma_fundamental_div_mod_converse(
            a.raw * UNIT,
            UNIT as int,
            a.raw as int,
            0,
        );
    }
    assert forall|a: Fixed| #[trigger] a.times(nothing) == nothing by {
        assert(a.raw * 0 == 0);
    }
    assert forall|a: Fixed| #[trigger] nothing.times(a) == nothing by {
        assert(0 * a.raw == 0);
    }
    let axis = Vec3 { x: unit, y: nothing, z: nothing };
    let first = crossed_with(y, z, axis);
    let second = crossed_with(y, z, first);
    assert(first.x == nothing);
    assert(first.y == z);
    assert(first.z == direction.z);
    assert(second.y == nothing);
    assert(second.z == nothing);
    let divisor = unit.plus(direction.x);
    lemma_nothing_over(divisor);
    let still = crossed_with(nothing, nothing, point);
    assert(nothing.negated() == nothing);
    assert(still == (Vec3 { x: nothing, y: nothing, z: nothing }));
    lemma_nothing_over(unit.plus(unit));
}

proof fn lemma_nothing_over(divisor: Fixed)
    ensures
        (Fixed { raw: 0 }).over(divisor) == (Fixed { raw: 0 }),
{
    if divisor.raw > 0 {
        vstd::arithmetic::div_mod::lemma_div_of0(divisor.raw as int);
    }
    if divisor.raw < 0 {
        vstd::arithmetic::div_mod::lemma_div_of0(-divisor.raw as int);
    }
}

proof fn lemma_product_bound(first: int, second: int)
    requires
        -0x8000_0000_0000_0000 <= first < 0x8000_0000_0000_0000,
        -0x8000_0000_0000_0000 <= second < 0x8000_0000_0000_0000,
    ensures
        -0x4000_0000_0000_0000_0000_0000_0000_0000 <= first * second,
        first * second <= 0x4000_0000_0000_0000_0000_0000_0000_0000,
{
    assert(-0x4000_0000_0000_0000_0000_0000_0000_0000 <= first * second && first * second
        <= 0x4000_0000_0000_0000_0000_0000_0000_0000) by (nonlinear_arith)
        requires
            -0x8000_0000_0000_0000 <= first < 0x8000_0000_0000_0000,
            -0x8000_0000_0000_0000 <= second < 0x8000_0000_0000_0000,
    ;
}

} // verus!
