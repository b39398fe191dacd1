//! The rules of exact arithmetic.
//!
//! Floating-point arithmetic rounds, so that kernels which add in different orders give
//! different results. What they have in common is stated by laws that take these rules for
//! granted: in arithmetic that does not round, the results are equal.

use vstd::prelude::*;

use crate::agreement::one_changes_nothing;
use crate::scalar::{above, one, zero, Scalar};

verus! {

/// Zero adds nothing.
#[verifier::opaque]
pub open spec fn zero_adds_nothing<S: Scalar>() -> bool {
    forall|a: S| S::sum(zero(), a) == a && #[trigger] S::sum(a, zero()) == a
}

/// Sums may be regrouped.
#[verifier::opaque]
pub open spec fn sums_regroup<S: Scalar>() -> bool {
    forall|a: S, b: S, c: S| #[trigger] S::sum(S::sum(a, b), c) == S::sum(a, S::sum(b, c))
}

/// Summands may change places.
#[verifier::opaque]
pub open spec fn sums_commute<S: Scalar>() -> bool {
    forall|a: S, b: S| #[trigger] S::sum(a, b) == S::sum(b, a)
}

/// A product with zero is zero.
#[verifier::opaque]
pub open spec fn zero_absorbs<S: Scalar>() -> bool {
    forall|a: S| #[trigger] S::product(zero(), a) == zero::<S>()
}

/// Factors may change places.
#[verifier::opaque]
pub open spec fn products_commute<S: Scalar>() -> bool {
    forall|a: S, b: S| #[trigger] S::product(a, b) == S::product(b, a)
}

/// Products may be regrouped.
#[verifier::opaque]
pub open spec fn products_regroup<S: Scalar>() -> bool {
    forall|a: S, b: S, c: S| #[trigger]
        S::product(S::product(a, b), c) == S::product(a, S::product(b, c))
}

/// A product with a sum is the sum of the products.
#[verifier::opaque]
pub open spec fn products_distribute<S: Scalar>() -> bool {
    forall|a: S, b: S, c: S| #[trigger]
        S::product(S::sum(a, b), c) == S::sum(S::product(a, c), S::product(b, c))
}

/// Sums and products follow the rules of exact arithmetic.
pub open spec fn exact_ring<S: Scalar>() -> bool {
    &&& zero_adds_nothing::<S>()
    &&& sums_regroup::<S>()
    &&& sums_commute::<S>()
    &&& zero_absorbs::<S>()
    &&& products_commute::<S>()
    &&& products_regroup::<S>()
    &&& products_distribute::<S>()
}

/// A fused product and sum is a product and a sum.
#[verifier::opaque]
pub open spec fn exact_fused<S: Scalar>() -> bool {
    forall|a: S, b: S, c: S| #[trigger] S::fused_value(a, b, c) == S::sum(S::product(a, b), c)
}

pub(crate) proof fn lemma_zero<S: Scalar>(a: S)
    requires
        exact_ring::<S>(),
    ensures
        S::sum(zero(), a) == a,
        S::sum(a, zero()) == a,
        S::product(zero(), a) == zero::<S>(),
{
    reveal(zero_adds_nothing);
    reveal(zero_absorbs);
    assert(S::sum(a, zero()) == a);
}

pub(crate) proof fn lemma_regroup_sum<S: Scalar>(a: S, b: S, c: S)
    requires
        exact_ring::<S>(),
    ensures
        S::sum(S::sum(a, b), c) == S::sum(a, S::sum(b, c)),
{
    reveal(sums_regroup);
}

pub(crate) proof fn lemma_commute_sum<S: Scalar>(a: S, b: S)
    requires
        exact_ring::<S>(),
    ensures
        S::sum(a, b) == S::sum(b, a),
{
    reveal(sums_commute);
}

pub(crate) proof fn lemma_commute<S: Scalar>(a: S, b: S)
    requires
        exact_ring::<S>(),
    ensures
        S::product(a, b) == S::product(b, a),
{
    reveal(products_commute);
}

pub(crate) proof fn lemma_regroup_product<S: Scalar>(a: S, b: S, c: S)
    requires
        exact_ring::<S>(),
    ensures
        S::product(S::product(a, b), c) == S::product(a, S::product(b, c)),
{
    reveal(products_regroup);
}

pub(crate) proof fn lemma_distribute<S: Scalar>(a: S, b: S, c: S)
    requires
        exact_ring::<S>(),
    ensures
        S::product(S::sum(a, b), c) == S::sum(S::product(a, c), S::product(b, c)),
{
    reveal(products_distribute);
}

/// The middle factor moves to the front: `(a * b) * c` is `(a * c) * b`.
pub(crate) proof fn lemma_swap_last<S: Scalar>(a: S, b: S, c: S)
    requires
        exact_ring::<S>(),
    ensures
        S::product(S::product(a, b), c) == S::product(S::product(a, c), b),
{
    lemma_regroup_product(a, b, c);
    lemma_commute(b, c);
    lemma_regroup_product(a, c, b);
}

/// Four summands may be taken in pairs: `(a + b) + (c + d)` is `(a + c) + (b + d)`.
pub(crate) proof fn lemma_pairs<S: Scalar>(a: S, b: S, c: S, d: S)
    requires
        exact_ring::<S>(),
    ensures
        S::sum(S::sum(a, b), S::sum(c, d)) == S::sum(S::sum(a, c), S::sum(b, d)),
{
    lemma_regroup_sum(a, b, S::sum(c, d));
    lemma_regroup_sum(b, c, d);
    lemma_commute_sum(b, c);
    lemma_regroup_sum(c, b, d);
    lemma_regroup_sum(a, c, S::sum(b, d));
}

/// Differences undo sums, and sums undo differences.
#[verifier::opaque]
pub open spec fn differences_undo_sums<S: Scalar>() -> bool {
    &&& forall|a: S, b: S| #[trigger] S::difference(S::sum(a, b), b) == a
    &&& forall|a: S, b: S| S::sum(#[trigger] S::difference(a, b), b) == a
}

/// Quotients by what is above zero undo products, and products undo quotients.
#[verifier::opaque]
pub open spec fn quotients_undo_products<S: Scalar>() -> bool {
    &&& forall|a: S, b: S|
        above(b, zero::<S>()) ==> #[trigger] S::quotient(S::product(a, b), b) == a
    &&& forall|a: S, b: S|
        above(b, zero::<S>()) ==> S::product(#[trigger] S::quotient(a, b), b) == a
}

/// Numbers of things are sums of ones.
#[verifier::opaque]
pub open spec fn counts_are_sums<S: Scalar>() -> bool {
    &&& S::count_value(0) == zero::<S>()
    &&& forall|n: nat| #[trigger] S::count_value(n + 1) == S::sum(S::count_value(n), one())
    &&& forall|n: nat| n > 0 ==> above(#[trigger] S::count_value(n), zero::<S>())
}

/// All four operations follow the rules of exact arithmetic.
pub open spec fn exact_field<S: Scalar>() -> bool {
    &&& exact_ring::<S>()
    &&& differences_undo_sums::<S>()
    &&& quotients_undo_products::<S>()
    &&& one_changes_nothing::<S>()
    &&& counts_are_sums::<S>()
}

/// Factors above zero keep a product on its side of zero.
#[verifier::opaque]
pub open spec fn positive_factors_keep_signs<S: Scalar>() -> bool {
    forall|a: S, b: S|
        above(a, zero::<S>()) ==> (above(#[trigger] S::product(a, b), zero::<S>()) <==> above(
            b,
            zero::<S>(),
        ))
}

/// The root of a square above zero is its base, and the root of a product with one such square
/// is the base times the root of the other factor.
#[verifier::opaque]
pub open spec fn roots_take_squares_out<S: Scalar>() -> bool {
    forall|a: S, b: S|
        above(a, zero::<S>()) ==> #[trigger] S::root(S::product(S::product(a, a), b)) == S::product(
            a,
            S::root(b),
        )
}

/// Roots of what is above zero are above zero and give it back multiplied by themselves. The
/// root of anything else is zero.
#[verifier::opaque]
pub open spec fn squares_undo_roots<S: Scalar>() -> bool {
    &&& forall|a: S|
        above(a, zero::<S>()) ==> S::product(#[trigger] S::root(a), S::root(a)) == a && above(
            S::root(a),
            zero::<S>(),
        )
    &&& forall|a: S| !above(a, zero::<S>()) ==> #[trigger] S::root(a) == zero::<S>()
}

/// Roots follow the rules of exact arithmetic.
pub open spec fn exact_roots<S: Scalar>() -> bool {
    &&& positive_factors_keep_signs::<S>()
    &&& roots_take_squares_out::<S>()
    &&& squares_undo_roots::<S>()
}

pub(crate) proof fn lemma_minus_plus<S: Scalar>(a: S, b: S)
    requires
        exact_field::<S>(),
    ensures
        S::difference(S::sum(a, b), b) == a,
        S::sum(S::difference(a, b), b) == a,
{
    reveal(differences_undo_sums);
}

pub(crate) proof fn lemma_over_times<S: Scalar>(a: S, b: S)
    requires
        exact_field::<S>(),
        above(b, zero::<S>()),
    ensures
        S::quotient(S::product(a, b), b) == a,
        S::product(S::quotient(a, b), b) == a,
{
    reveal(quotients_undo_products);
}

pub(crate) proof fn lemma_one<S: Scalar>(a: S)
    requires
        exact_field::<S>(),
    ensures
        S::product(one(), a) == a,
        S::product(a, one()) == a,
{
    reveal(one_changes_nothing);
    lemma_commute(a, one());
}

/// What two numbers have in common cancels out of a sum.
pub(crate) proof fn lemma_cancel<S: Scalar>(a: S, b: S, c: S)
    requires
        exact_field::<S>(),
        S::sum(a, c) == S::sum(b, c),
    ensures
        a == b,
{
    lemma_minus_plus(a, c);
    lemma_minus_plus(b, c);
}

/// A factor may be multiplied into a difference.
pub(crate) proof fn lemma_distribute_difference<S: Scalar>(a: S, b: S, c: S)
    requires
        exact_field::<S>(),
    ensures
        S::product(S::difference(a, b), c) == S::difference(S::product(a, c), S::product(b, c)),
{
    let t = S::difference(a, b);
    lemma_minus_plus(a, b);
    lemma_distribute(t, b, c);
    lemma_minus_plus(S::product(t, c), S::product(b, c));
}

/// A quotient by what is above zero is the only number whose product with it is the dividend.
pub(crate) proof fn lemma_quotient_is<S: Scalar>(q: S, a: S, b: S)
    requires
        exact_field::<S>(),
        above(b, zero::<S>()),
        S::product(q, b) == a,
    ensures
        q == S::quotient(a, b),
{
    lemma_over_times(q, b);
}

} // verus!
