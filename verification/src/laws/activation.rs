//! Laws of the activation.

use vstd::prelude::*;

use crate::agreement::{activations_agree, tangents_are_fractions};
use crate::exact::{
    exact_field, lemma_commute, lemma_commute_sum, lemma_distribute, lemma_distribute_difference,
    lemma_minus_plus, lemma_one, lemma_pairs, lemma_regroup_product, lemma_regroup_sum, lemma_zero,
};
use crate::kernels::elementwise::gelu_value;
use crate::reference::{activated, gelu_of};
use crate::scalar::{one, zero, Constant, Scalar};

verus! {

/// A number with its sign turned.
pub open spec fn negated<S: Scalar>(x: S) -> S {
    S::difference(zero(), x)
}

/// The hyperbolic tangent turns its sign with that of its argument.
#[verifier::opaque]
pub open spec fn tangents_are_odd<S: Scalar>() -> bool {
    forall|x: S| #[trigger]
        S::hyperbolic_tangent(negated(x)) == negated(S::hyperbolic_tangent(x))
}

/// Two halves are one.
pub open spec fn halves_make_one<S: Scalar>() -> bool {
    S::sum(S::constant_value(Constant::Half), S::constant_value(Constant::Half)) == one::<S>()
}

/// What the hyperbolic tangent is taken of.
spec fn inside<S: Scalar>(x: S) -> S {
    S::product(
        S::constant_value(Constant::GeluScale),
        S::sum(
            x,
            S::product(
                S::product(S::product(S::constant_value(Constant::GeluCoefficient), x), x),
                x,
            ),
        ),
    )
}

proof fn lemma_negated_factor<S: Scalar>(a: S, b: S)
    requires
        exact_field::<S>(),
    ensures
        S::product(negated(a), b) == negated(S::product(a, b)),
        S::product(b, negated(a)) == negated(S::product(b, a)),
{
    lemma_distribute_difference(zero(), a, b);
    lemma_zero(b);
    lemma_commute(b, negated(a));
    lemma_commute(b, a);
}

pub(crate) proof fn lemma_negated_twice<S: Scalar>(a: S)
    requires
        exact_field::<S>(),
    ensures
        negated(negated(a)) == a,
        S::sum(a, negated(a)) == zero::<S>(),
{
    lemma_minus_plus(zero::<S>(), a);
    lemma_commute_sum(negated(a), a);
    lemma_minus_plus(a, negated(a));
}

proof fn lemma_negated_sum<S: Scalar>(a: S, b: S)
    requires
        exact_field::<S>(),
    ensures
        S::sum(negated(a), negated(b)) == negated(S::sum(a, b)),
{
    lemma_pairs(negated(a), negated(b), a, b);
    lemma_minus_plus(zero::<S>(), a);
    lemma_minus_plus(zero::<S>(), b);
    lemma_zero(zero::<S>());
    let n = S::sum(negated(a), negated(b));
    lemma_minus_plus(n, S::sum(a, b));
}

proof fn lemma_inside_is_odd<S: Scalar>(x: S)
    requires
        exact_field::<S>(),
    ensures
        inside(negated(x)) == negated(inside(x)),
{
    let c = S::constant_value(Constant::GeluCoefficient);
    let m = negated(x);
    let cx = S::product(c, x);
    let cxx = S::product(cx, x);
    lemma_negated_factor(x, c);
    lemma_negated_factor(cx, m);
    lemma_negated_factor(x, cx);
    lemma_negated_twice(cxx);
    assert(S::product(S::product(c, m), m) == cxx);
    lemma_negated_factor(x, cxx);
    lemma_negated_sum(x, S::product(cxx, x));
    lemma_negated_factor(
        S::sum(x, S::product(cxx, x)),
        S::constant_value(Constant::GeluScale),
    );
}

/// In exact arithmetic, an activated number is the number itself with the activation of its
/// negative added.
pub proof fn activation_keeps_the_number<S: Scalar>(x: S)
    requires
        exact_field::<S>(),
        tangents_are_odd::<S>(),
        halves_make_one::<S>(),
    ensures
        gelu_of(x) == S::sum(x, gelu_of(negated(x))),
{
    reveal(tangents_are_odd);
    let half = S::constant_value(Constant::Half);
    let m = negated(x);
    let t = S::hyperbolic_tangent(inside(x));
    lemma_inside_is_odd(x);
    assert(S::hyperbolic_tangent(inside(m)) == negated(t));
    let xh = S::product(x, half);
    lemma_negated_factor(x, half);
    // What the number gives, and what its negative gives.
    let a = S::product(xh, t);
    lemma_commute(xh, S::sum(one(), t));
    lemma_distribute(one(), t, xh);
    lemma_one(xh);
    lemma_commute(t, xh);
    assert(gelu_of(x) == S::sum(xh, a));
    let nxh = negated(xh);
    lemma_commute(nxh, S::sum(one(), negated(t)));
    lemma_distribute(one(), negated(t), nxh);
    lemma_one(nxh);
    lemma_negated_factor(t, nxh);
    lemma_negated_factor(xh, t);
    lemma_commute(t, nxh);
    lemma_negated_twice(a);
    assert(gelu_of(m) == S::sum(nxh, a)) by {
        assert(S::product(m, half) == nxh);
        assert(S::product(negated(t), nxh) == S::product(nxh, negated(t))) by {
            lemma_commute(negated(t), nxh);
        }
        assert(S::product(nxh, negated(t)) == negated(S::product(nxh, t)));
    }
    // Half of the number on either side.
    lemma_commute(x, S::sum(half, half));
    lemma_distribute(half, half, x);
    lemma_one(x);
    lemma_commute(half, x);
    assert(x == S::sum(xh, xh));
    lemma_regroup_sum(x, nxh, a);
    lemma_regroup_sum(xh, xh, nxh);
    lemma_negated_twice(xh);
    lemma_zero(xh);
}

/// In exact arithmetic, twice an activated number is the number times one and the hyperbolic
/// tangent of the scaled sum of the number and a part of its cube.
pub proof fn activation_is_half_of_a_product<S: Scalar>(x: S, cube: S)
    requires
        exact_field::<S>(),
        halves_make_one::<S>(),
        cube == S::product(x, S::product(x, x)),
    ensures
        S::sum(gelu_of(x), gelu_of(x)) == S::product(
            x,
            S::sum(
                one(),
                S::hyperbolic_tangent(
                    S::product(
                        S::constant_value(Constant::GeluScale),
                        S::sum(x, S::product(S::constant_value(Constant::GeluCoefficient), cube)),
                    ),
                ),
            ),
        ),
{
    let c = S::constant_value(Constant::GeluCoefficient);
    let half = S::constant_value(Constant::Half);
    lemma_regroup_product(S::product(c, x), x, x);
    lemma_regroup_product(c, x, S::product(x, x));
    let f = S::sum(one(), S::hyperbolic_tangent(inside(x)));
    let xh = S::product(x, half);
    lemma_distribute(xh, xh, f);
    lemma_commute(x, half);
    lemma_distribute(half, half, x);
    lemma_one(x);
}

/// In exact arithmetic, zero stays zero.
pub proof fn activation_keeps_zero<S: Scalar>()
    requires
        exact_field::<S>(),
    ensures
        gelu_of(zero::<S>()) == zero::<S>(),
{
    let half = S::constant_value(Constant::Half);
    lemma_zero(half);
    lemma_zero(S::sum(one(), S::hyperbolic_tangent(inside(zero::<S>()))));
}

/// Every element is activated on its own, and by the kernel as by the reference.
pub proof fn elements_are_activated_alone<S: Scalar>(x: Seq<S>, y: Seq<S>, i: int, j: int)
    requires
        tangents_are_fractions::<S>(),
        0 <= i < x.len(),
        0 <= j < y.len(),
        x[i] == y[j],
    ensures
        activated(x).len() == x.len(),
        activated(x)[i] == activated(y)[j],
        activated(x)[i] == gelu_value(x[i]),
{
    activations_agree(x[i]);
}

} // verus!
