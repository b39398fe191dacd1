//! Laws of the softmax kernels and of comparisons with what is expected.

use vstd::prelude::*;

use crate::agreement::{hidden, inverses_exist, lemma_sum_factor, quotients_are_products};
use crate::checks::compare::{absolute, count_far, count_too_far, distance, relative_distance};
use crate::exact::{
    exact_field, exact_ring, lemma_minus_plus, lemma_over_times, lemma_regroup_product,
    lemma_regroup_sum, lemma_zero,
};
use crate::kernels::attention::{exponentials, running_max};
use crate::kernels::gemm::row_softmax;
use crate::kernels::online::{
    counts, exact_exponential, exp_of, exponentials_chain, lemma_running_max, scores_count,
};
use crate::kernels::reduce::{
    max_reduced, range_sum, reduced_maximum_is_greatest, shifted_exponentials, softmax_value,
    sum_reduced,
};
use crate::laws::activation::{lemma_negated_twice, negated};
use crate::reference::{range_max, row_exponentials};
use crate::scalar::{above, one, zero, Scalar};

verus! {

proof fn lemma_ratio<S: Scalar>(xa: S, xb: S, max: S, total: S)
    requires
        exact_ring::<S>(),
        exact_exponential::<S>(),
        quotients_are_products::<S>(),
        counts(xa),
        counts(max),
    ensures
        S::product(exp_of(xb, xa), S::quotient(exp_of(xa, max), total)) == S::quotient(
            exp_of(xb, max),
            total,
        ),
{
    reveal(quotients_are_products);
    reveal(exponentials_chain);
    let inv = S::quotient(one(), total);
    assert(S::product(exp_of(xb, xa), exp_of(xa, max)) == exp_of(xb, max));
    lemma_regroup_product(exp_of(xb, xa), exp_of(xa, max), inv);
}

/// In exact arithmetic, two elements of a softmax differ by the exponential of the difference
/// of what they were computed from.
pub proof fn softmax_follows_its_input<S: Scalar>(x: Seq<S>, a: int, b: int)
    requires
        exact_ring::<S>(),
        exact_exponential::<S>(),
        quotients_are_products::<S>(),
        0 <= a < x.len(),
        0 <= b < x.len(),
        forall|j: int| 0 <= j < x.len() ==> counts(#[trigger] x[j]),
    ensures
        softmax_value(x).len() == x.len(),
        S::product(exp_of(x[b], x[a]), softmax_value(x)[a]) == softmax_value(x)[b],
{
    assert forall|j: int| 0 <= j < x.len() implies S::rank(#[trigger] x[j]) is Some by {
        assert(counts(x[j]));
    }
    reduced_maximum_is_greatest(x, a);
    let max = max_reduced(x);
    let p = choose|p: int| 0 <= p < x.len() && x[p] == max;
    assert(counts(x[p]));
    let e = shifted_exponentials(x);
    assert(e[a] == exp_of(x[a], max) && e[b] == exp_of(x[b], max));
    lemma_ratio(x[a], x[b], max, sum_reduced(e));
}

/// In exact arithmetic, a row of the product-and-softmax kernel adds up to one, and two of its
/// elements differ by the exponential of the difference of what they were computed from.
pub proof fn row_softmax_follows_its_input<S: Scalar>(x: Seq<S>, a: int, b: int)
    requires
        exact_ring::<S>(),
        exact_exponential::<S>(),
        quotients_are_products::<S>(),
        inverses_exist::<S>(),
        0 <= a < x.len(),
        0 <= b < x.len(),
        forall|j: int| 0 <= j < x.len() ==> counts(#[trigger] x[j]),
        above(
            range_sum(exponentials(x, running_max(x, x.len())), 0, x.len()),
            zero::<S>(),
        ),
    ensures
        row_softmax(x).len() == x.len(),
        range_sum(row_softmax(x), 0, x.len()) == one::<S>(),
        S::product(exp_of(x[b], x[a]), row_softmax(x)[a]) == row_softmax(x)[b],
{
    let n = x.len();
    let max = running_max(x, n);
    assert(scores_count(x, false, 0)) by {
        assert forall|j: int| 0 <= j < x.len() implies counts(#[trigger] x[j]) by {}
    }
    lemma_running_max(x, false, 0, n);
    let e = exponentials(x, max);
    let total = range_sum(e, 0, n);
    assert(e[a] == exp_of(x[a], max) && e[b] == exp_of(x[b], max));
    lemma_ratio(x[a], x[b], max, total);
    let w = row_softmax(x);
    let inv = S::quotient(one(), total);
    assert forall|j: int| 0 <= j < n implies #[trigger] w[j] == S::product(e[j], inv) by {
        reveal(quotients_are_products);
        assert(w[j] == S::quotient(e[j], total));
    }
    lemma_sum_factor(e, w, inv, n);
    reveal(inverses_exist);
}

/// The greater of two numbers is the same with the two exchanged.
#[verifier::opaque]
pub open spec fn maxima_commute<S: Scalar>() -> bool {
    forall|a: S, b: S| #[trigger] S::maximum(a, b) == S::maximum(b, a)
}

/// The greater of two numbers that can be compared is one of them, and neither exceeds it.
#[verifier::opaque]
pub open spec fn maxima_are_greatest<S: Scalar>() -> bool {
    forall|a: S, b: S|
        S::rank(a) is Some && S::rank(b) is Some ==> {
            let m = #[trigger] S::maximum(a, b);
            (m == a || m == b) && !above(a, m) && !above(b, m)
        }
}

proof fn lemma_turned_difference<S: Scalar>(a: S, b: S)
    requires
        exact_field::<S>(),
    ensures
        negated(S::difference(a, b)) == S::difference(b, a),
{
    let d = S::difference(a, b);
    lemma_minus_plus(a, b);
    lemma_minus_plus(zero::<S>(), d);
    // The difference the other way round is what the first one lacks to zero.
    let e = negated(d);
    lemma_regroup_sum(e, d, b);
    lemma_zero(b);
    assert(S::sum(e, a) == b);
    lemma_minus_plus(e, a);
}

/// In exact arithmetic, a distance is the same from both ends, and there is none between a
/// number and itself.
pub proof fn distances_are_symmetric<S: Scalar>(a: S, b: S)
    requires
        exact_field::<S>(),
        maxima_commute::<S>(),
        maxima_are_greatest::<S>(),
        S::rank(zero::<S>()) is Some,
    ensures
        distance(a, b) == distance(b, a),
        distance(a, a) == zero::<S>(),
        absolute(a) == absolute(negated(a)),
{
    reveal(maxima_commute);
    lemma_turned_difference(a, b);
    lemma_turned_difference(b, a);
    lemma_zero(a);
    lemma_minus_plus(zero::<S>(), a);
    lemma_zero(zero::<S>());
    lemma_minus_plus(zero::<S>(), zero::<S>());
    assert(S::difference(zero::<S>(), zero::<S>()) == zero::<S>());
    assert(S::difference(a, a) == zero::<S>());
    reveal(maxima_are_greatest);
    lemma_turned_difference(zero::<S>(), a);
    lemma_turned_difference(a, zero::<S>());
    lemma_negated_twice(a);
}

/// Nothing is counted exactly if no element is farther off than it may be.
pub proof fn nothing_is_counted_within_tolerance<S: Scalar>(
    got: Seq<S>,
    want: Seq<S>,
    tiny: S,
    relative: S,
    tolerance: S,
    n: nat,
)
    ensures
        count_far(got, want, tolerance, n) <= n,
        count_far(got, want, tolerance, n) == 0 <==> forall|i: int|
            0 <= i < n ==> !above(distance(#[trigger] got[i], want[i]), tolerance),
        count_too_far(got, want, tiny, relative, tolerance, n) == 0 <==> forall|i: int|
            0 <= i < n ==> !(above(distance(#[trigger] got[i], want[i]), tolerance) && above(
                relative_distance(got[i], want[i], tiny),
                relative,
            )),
    decreases n,
{
    if n > 0 {
        let m = (n - 1) as nat;
        nothing_is_counted_within_tolerance(got, want, tiny, relative, tolerance, m);
        assert(got[n - 1] == got[m as int]);
    }
}

/// In exact arithmetic, a relative distance multiplied by the size of what is expected is the
/// distance, unless what is expected is tiny.
pub proof fn relative_distances_are_distances<S: Scalar>(got: S, want: S, tiny: S)
    requires
        exact_field::<S>(),
        above(absolute(want), zero::<S>()),
    ensures
        above(absolute(want), tiny) ==> S::product(
            relative_distance(got, want, tiny),
            absolute(want),
        ) == distance(got, want),
        !above(absolute(want), tiny) ==> relative_distance(got, want, tiny) == distance(got, want),
{
    lemma_over_times(distance(got, want), absolute(want));
}

proof fn lemma_nothing_left<S: Scalar>(a: S)
    requires
        exact_field::<S>(),
    ensures
        S::difference(a, a) == zero::<S>(),
{
    lemma_zero(a);
    lemma_minus_plus(zero::<S>(), a);
}

/// In exact arithmetic, the exponentials of a softmax are relative to its greatest element:
/// that element's is the exponential of zero, and no element exceeds what is subtracted.
pub proof fn softmax_is_relative_to_the_greatest<S: Scalar>(x: Seq<S>, i: int) -> (top: int)
    requires
        exact_field::<S>(),
        0 <= i < x.len(),
        forall|j: int| 0 <= j < x.len() ==> S::rank(#[trigger] x[j]) is Some,
    ensures
        0 <= top < x.len(),
        !above(x[i], x[top]),
        shifted_exponentials(x)[i] == S::exponential(S::difference(x[i], x[top])),
        shifted_exponentials(x)[top] == S::exponential(zero::<S>()),
{
    reduced_maximum_is_greatest(x, i);
    let top = choose|p: int| 0 <= p < x.len() && x[p] == max_reduced(x);
    lemma_nothing_left(x[top]);
    top
}

proof fn lemma_range_max_is_element<S: Scalar>(x: Seq<S>, start: int, n: nat, i: int) -> (top: int)
    requires
        maxima_are_greatest::<S>(),
        0 <= i < n,
        S::rank(hidden::<S>()) is Some,
        forall|j: int| 0 <= j < n ==> S::rank(#[trigger] x[start + j]) is Some,
        forall|j: int| 0 <= j < n ==> !above(hidden::<S>(), #[trigger] x[start + j]),
    ensures
        0 <= top < n,
        range_max(x, start, n) == x[start + top] || range_max(x, start, n) == hidden::<S>(),
        S::rank(range_max(x, start, n)) is Some,
        !above(x[start + i], range_max(x, start, n)),
    decreases n,
{
    reveal(maxima_are_greatest);
    let m = (n - 1) as nat;
    assert(S::rank(x[start + m]) is Some);
    assert(S::rank(x[start + i]) is Some);
    let last = x[start + n - 1];
    if m > 0 {
        let k = if i < m {
            i
        } else {
            0
        };
        let before = lemma_range_max_is_element(x, start, m, k);
        let top = range_max(x, start, m);
        assert(S::maximum(top, last) == range_max(x, start, n));
        if S::maximum(top, last) == last {
            m as int
        } else {
            before
        }
    } else {
        assert(range_max(x, start, 0) == hidden::<S>());
        assert(S::maximum(hidden(), last) == range_max(x, start, n));
        0
    }
}

/// The exponentials of a row of the reference's softmax are relative to what no element of the
/// row exceeds: one of its elements, or the score of a hidden position.
pub proof fn reference_softmax_is_relative_to_the_greatest<S: Scalar>(
    x: Seq<S>,
    r: int,
    n: nat,
    i: int,
) -> (base: S)
    requires
        maxima_are_greatest::<S>(),
        0 <= i < n,
        S::rank(hidden::<S>()) is Some,
        forall|j: int| 0 <= j < n ==> S::rank(#[trigger] x[r * n + j]) is Some,
        forall|j: int| 0 <= j < n ==> !above(hidden::<S>(), #[trigger] x[r * n + j]),
    ensures
        row_exponentials(x, r, n)[i] == S::exponential(S::difference(x[r * n + i], base)),
        !above(x[r * n + i], base),
        base == hidden::<S>() || exists|j: int| 0 <= j < n && #[trigger] x[r * n + j] == base,
{
    let top = lemma_range_max_is_element(x, r * n, n, i);
    let base = range_max(x, r * n, n);
    if base != hidden::<S>() {
        assert(x[r * n + top] == base);
    }
    base
}

} // verus!
