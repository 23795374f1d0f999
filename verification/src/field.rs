//! Arithmetic that does not round: what it is, and identities that hold in it.

use crate::scalar::{half, one, quarter, zero, Scalar};
use vstd::prelude::*;

verus! {

/// Sums of three numbers do not depend on where they start.
pub open spec fn sums_associate<S: Scalar>(a: S, b: S, c: S) -> bool {
    a.plus(b).plus(c) == a.plus(b.plus(c))
}

/// Sums do not depend on the order of their terms.
pub open spec fn sums_commute<S: Scalar>(a: S, b: S) -> bool {
    a.plus(b) == b.plus(a)
}

/// A product of a sum is the sum of the products.
pub open spec fn products_distribute<S: Scalar>(a: S, b: S, c: S) -> bool {
    a.plus(b).times(c) == a.times(c).plus(b.times(c))
}

/// To subtract is to add the number with its sign turned round.
pub open spec fn difference_is_sum<S: Scalar>(a: S, b: S) -> bool {
    a.minus(b) == a.plus(b.negated())
}

/// Zero adds nothing, is what a number and its opposite add up to, and stays zero in products
/// and quotients.
pub open spec fn zero_is_neutral<S: Scalar>(a: S) -> bool {
    &&& a.plus(zero()) == a
    &&& a.plus(a.negated()) == zero::<S>()
    &&& a.times(zero()) == zero::<S>()
    &&& zero::<S>().times(a) == zero::<S>()
    &&& zero::<S>().over(a) == zero::<S>()
}

/// The opposite of a sum is the sum of the opposites, and the opposite of the opposite is the
/// number.
pub open spec fn negation_distributes<S: Scalar>(a: S, b: S) -> bool {
    &&& a.plus(b).negated() == a.negated().plus(b.negated())
    &&& a.negated().negated() == a
}

/// Two halves or four quarters of a number add up to it.
pub open spec fn parts_add_up<S: Scalar>(a: S) -> bool {
    &&& a.times(half()).plus(a.times(half())) == a
    &&& a.times(quarter()).plus(a.times(quarter())).plus(a.times(quarter())).plus(
        a.times(quarter()),
    ) == a
}

/// Products do not depend on the order of their factors.
pub open spec fn products_commute<S: Scalar>(a: S, b: S) -> bool {
    a.times(b) == b.times(a)
}

/// Products of three numbers do not depend on where they start.
pub open spec fn products_associate<S: Scalar>(a: S, b: S, c: S) -> bool {
    a.times(b).times(c) == a.times(b.times(c))
}

/// One changes nothing in products, and a number times its reciprocal is one.
pub open spec fn one_is_neutral<S: Scalar>(a: S) -> bool {
    &&& a.times(one()) == a
    &&& a != zero::<S>() ==> a.times(one::<S>().over(a)) == one::<S>()
}

/// To divide is to multiply by the reciprocal.
pub open spec fn quotient_is_product<S: Scalar>(a: S, b: S) -> bool {
    a.over(b) == a.times(one::<S>().over(b))
}

/// Whole numbers go up by one.
pub open spec fn counts_go_up<S: Scalar>(value: usize) -> bool {
    value < usize::MAX ==> S::count((value + 1) as usize) == S::count(value).plus(one())
}

/// Whether the arithmetic does not round: sums and products associate, commute and
/// distribute, every number but zero has a reciprocal, and halves and quarters add up to the
/// whole.
#[verifier::opaque]
pub open spec fn exact<S: Scalar>() -> bool {
    &&& forall|a: S, b: S, c: S| #[trigger] sums_associate(a, b, c)
    &&& forall|a: S, b: S| #[trigger] sums_commute(a, b)
    &&& forall|a: S, b: S, c: S| #[trigger] products_distribute(a, b, c)
    &&& forall|a: S, b: S| #[trigger] difference_is_sum(a, b)
    &&& forall|a: S| #[trigger] zero_is_neutral(a)
    &&& forall|a: S, b: S| #[trigger] negation_distributes(a, b)
    &&& forall|a: S| #[trigger] parts_add_up(a)
    &&& forall|a: S, b: S| #[trigger] products_commute(a, b)
    &&& forall|a: S, b: S, c: S| #[trigger] products_associate(a, b, c)
    &&& forall|a: S| #[trigger] one_is_neutral(a)
    &&& forall|a: S, b: S| #[trigger] quotient_is_product(a, b)
    &&& forall|value: usize| #[trigger] counts_go_up::<S>(value)
}

pub proof fn lemma_associate<S: Scalar>(a: S, b: S, c: S)
    requires
        exact::<S>(),
    ensures
        a.plus(b).plus(c) == a.plus(b.plus(c)),
{
    reveal(exact);
    assert(sums_associate(a, b, c));
}

pub proof fn lemma_commute<S: Scalar>(a: S, b: S)
    requires
        exact::<S>(),
    ensures
        a.plus(b) == b.plus(a),
{
    reveal(exact);
    assert(sums_commute(a, b));
}

pub proof fn lemma_distribute<S: Scalar>(a: S, b: S, c: S)
    requires
        exact::<S>(),
    ensures
        a.plus(b).times(c) == a.times(c).plus(b.times(c)),
{
    reveal(exact);
    assert(products_distribute(a, b, c));
}

pub proof fn lemma_difference<S: Scalar>(a: S, b: S)
    requires
        exact::<S>(),
    ensures
        a.minus(b) == a.plus(b.negated()),
{
    reveal(exact);
    assert(difference_is_sum(a, b));
}

pub proof fn lemma_zero<S: Scalar>(a: S)
    requires
        exact::<S>(),
    ensures
        a.plus(zero()) == a,
        a.plus(a.negated()) == zero::<S>(),
        a.times(zero()) == zero::<S>(),
        zero::<S>().times(a) == zero::<S>(),
        zero::<S>().over(a) == zero::<S>(),
{
    reveal(exact);
    assert(zero_is_neutral(a));
}

pub proof fn lemma_negation<S: Scalar>(a: S, b: S)
    requires
        exact::<S>(),
    ensures
        a.plus(b).negated() == a.negated().plus(b.negated()),
        a.negated().negated() == a,
{
    reveal(exact);
    assert(negation_distributes(a, b));
}

pub proof fn lemma_parts<S: Scalar>(a: S)
    requires
        exact::<S>(),
    ensures
        a.times(half()).plus(a.times(half())) == a,
        a.times(quarter()).plus(a.times(quarter())).plus(a.times(quarter())).plus(
            a.times(quarter()),
        ) == a,
{
    reveal(exact);
    assert(parts_add_up(a));
}

/// The middle terms of two sums change places.
pub proof fn lemma_exchange<S: Scalar>(a: S, b: S, c: S, d: S)
    requires
        exact::<S>(),
    ensures
        a.plus(b).plus(c.plus(d)) == a.plus(c).plus(b.plus(d)),
{
    lemma_associate(a, b, c.plus(d));
    lemma_associate(b, c, d);
    lemma_commute(b, c);
    lemma_associate(c, b, d);
    lemma_associate(a, c, b.plus(d));
}

pub proof fn lemma_product_commute<S: Scalar>(a: S, b: S)
    requires
        exact::<S>(),
    ensures
        a.times(b) == b.times(a),
{
    reveal(exact);
    assert(products_commute(a, b));
}

pub proof fn lemma_product_associate<S: Scalar>(a: S, b: S, c: S)
    requires
        exact::<S>(),
    ensures
        a.times(b).times(c) == a.times(b.times(c)),
{
    reveal(exact);
    assert(products_associate(a, b, c));
}

pub proof fn lemma_one<S: Scalar>(a: S)
    requires
        exact::<S>(),
    ensures
        a.times(one()) == a,
        one::<S>().times(a) == a,
{
    reveal(exact);
    assert(one_is_neutral(a));
    lemma_product_commute(a, one());
}

/// A quotient times its divisor is the dividend.
pub proof fn lemma_quotient<S: Scalar>(a: S, b: S)
    requires
        exact::<S>(),
        b != zero::<S>(),
    ensures
        a.over(b).times(b) == a,
        b.times(a.over(b)) == a,
{
    reveal(exact);
    let reciprocal = one::<S>().over(b);
    assert(quotient_is_product(a, b));
    assert(one_is_neutral(b));
    lemma_product_associate(a, reciprocal, b);
    lemma_product_commute(reciprocal, b);
    lemma_one(a);
    lemma_product_commute(a.over(b), b);
}

/// To divide is to multiply by the reciprocal.
pub proof fn lemma_reciprocal<S: Scalar>(a: S, b: S)
    requires
        exact::<S>(),
    ensures
        a.over(b) == a.times(one::<S>().over(b)),
{
    reveal(exact);
    assert(quotient_is_product(a, b));
}

pub proof fn lemma_count<S: Scalar>(value: usize)
    requires
        exact::<S>(),
        value < usize::MAX,
    ensures
        S::count((value + 1) as usize) == S::count(value).plus(one()),
{
    reveal(exact);
    assert(counts_go_up::<S>(value));
}

/// Taking away what was added, or adding what was taken away, changes nothing.
pub proof fn lemma_undo<S: Scalar>(a: S, b: S)
    requires
        exact::<S>(),
    ensures
        a.plus(b).minus(b) == a,
        a.minus(b).plus(b) == a,
        b.plus(a).minus(b) == a,
        b.plus(a.minus(b)) == a,
{
    lemma_difference(a.plus(b), b);
    lemma_associate(a, b, b.negated());
    lemma_zero(b);
    lemma_zero(a);
    lemma_difference(a, b);
    lemma_associate(a, b.negated(), b);
    lemma_commute(b.negated(), b);
    lemma_commute(b, a);
    lemma_commute(b, a.minus(b));
}

/// The opposite of a product is the product with the opposite of either factor.
pub proof fn lemma_negated_product<S: Scalar>(a: S, b: S)
    requires
        exact::<S>(),
    ensures
        a.negated().times(b) == a.times(b).negated(),
        a.times(b.negated()) == a.times(b).negated(),
{
    lemma_opposite_factor(a, b);
    lemma_opposite_factor(b, a);
    lemma_product_commute(a, b.negated());
    lemma_product_commute(a, b);
}

proof fn lemma_opposite_factor<S: Scalar>(a: S, b: S)
    requires
        exact::<S>(),
    ensures
        a.negated().times(b) == a.times(b).negated(),
{
    let product = a.times(b);
    let opposite = a.negated().times(b);
    lemma_distribute(a, a.negated(), b);
    lemma_zero(a);
    lemma_zero(b);
    assert(product.plus(opposite) == zero::<S>());
    lemma_undo(opposite, product);
    assert(product.plus(opposite).minus(product) == opposite);
    lemma_difference(zero(), product);
    lemma_commute(zero(), product.negated());
    lemma_zero(product.negated());
}

/// A product of a difference is the difference of the products.
pub proof fn lemma_distribute_difference<S: Scalar>(a: S, b: S, c: S)
    requires
        exact::<S>(),
    ensures
        a.minus(b).times(c) == a.times(c).minus(b.times(c)),
        c.times(a.minus(b)) == c.times(a).minus(c.times(b)),
{
    lemma_difference(a, b);
    lemma_distribute(a, b.negated(), c);
    lemma_negated_product(b, c);
    lemma_difference(a.times(c), b.times(c));
    lemma_product_commute(c, a.minus(b));
    lemma_product_commute(c, a);
    lemma_product_commute(c, b);
}

/// A product with a sum as its second factor.
pub proof fn lemma_distribute_left<S: Scalar>(a: S, b: S, c: S)
    requires
        exact::<S>(),
    ensures
        c.times(a.plus(b)) == c.times(a).plus(c.times(b)),
{
    lemma_distribute(a, b, c);
    lemma_product_commute(c, a.plus(b));
    lemma_product_commute(c, a);
    lemma_product_commute(c, b);
}

/// The difference of two sums is the sum of the differences.
pub proof fn lemma_difference_of_sums<S: Scalar>(a: S, b: S, c: S, d: S)
    requires
        exact::<S>(),
    ensures
        a.minus(c).plus(b.minus(d)) == a.plus(b).minus(c.plus(d)),
{
    lemma_difference(a, c);
    lemma_difference(b, d);
    lemma_exchange(a, c.negated(), b, d.negated());
    lemma_negation(c, d);
    lemma_difference(a.plus(b), c.plus(d));
}

/// Nothing taken away changes nothing, and zero has no sign.
pub proof fn lemma_take_nothing<S: Scalar>(a: S)
    requires
        exact::<S>(),
    ensures
        a.minus(zero()) == a,
        a.plus(zero()) == a,
        zero::<S>().plus(a) == a,
        zero::<S>().minus(a) == a.negated(),
        zero::<S>().negated() == zero::<S>(),
{
    lemma_difference(a, zero());
    lemma_zero(zero::<S>());
    lemma_commute(zero::<S>(), zero::<S>().negated());
    lemma_zero(zero::<S>().negated());
    lemma_zero(a);
    lemma_commute(zero(), a);
    lemma_difference(zero(), a);
    lemma_commute(zero(), a.negated());
    lemma_zero(a.negated());
}

/// Two factors change places.
pub proof fn lemma_exchange_factors<S: Scalar>(a: S, b: S, c: S)
    requires
        exact::<S>(),
    ensures
        a.times(b).times(c) == a.times(c).times(b),
{
    lemma_product_associate(a, b, c);
    lemma_product_commute(b, c);
    lemma_product_associate(a, c, b);
}

} // verus!
