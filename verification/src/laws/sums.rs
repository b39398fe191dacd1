//! Laws of sums and of sums of products.

use vstd::prelude::*;

use crate::exact::{
    exact_field, exact_ring, lemma_commute, lemma_distribute, lemma_one, lemma_pairs,
    lemma_regroup_product, lemma_regroup_sum, lemma_zero,
};
use crate::kernels::reduce::{range_deviation, range_sum, squared_deviation};
use crate::scalar::{one, zero, Scalar};
use crate::tensor::dot;

verus! {

/// The sum of one element is the element.
pub proof fn sum_of_one_element<S: Scalar>(x: Seq<S>, start: int)
    requires
        exact_ring::<S>(),
    ensures
        range_sum(x, start, 1) == x[start],
{
    reveal_with_fuel(range_sum, 2);
    lemma_zero(x[start]);
}

/// The sums of two adjoining stretches add up to the sum of both.
pub proof fn adjoining_sums_add_up<S: Scalar>(x: Seq<S>, start: int, n: nat, k: nat)
    requires
        exact_ring::<S>(),
    ensures
        S::sum(range_sum(x, start, n), range_sum(x, start + n, k)) == range_sum(x, start, n + k),
    decreases k,
{
    if k > 0 {
        adjoining_sums_add_up(x, start, n, (k - 1) as nat);
        lemma_regroup_sum(
            range_sum(x, start, n),
            range_sum(x, start + n, (k - 1) as nat),
            x[start + n + k - 1],
        );
    } else {
        lemma_zero(range_sum(x, start, n));
    }
}

/// A sum depends on its elements only, wherever they stand.
pub proof fn sums_depend_on_their_elements<S: Scalar>(x: Seq<S>, y: Seq<S>, a: int, b: int, n: nat)
    requires
        forall|j: int| 0 <= j < n ==> #[trigger] x[a + j] == y[b + j],
    ensures
        range_sum(x, a, n) == range_sum(y, b, n),
    decreases n,
{
    if n > 0 {
        sums_depend_on_their_elements(x, y, a, b, (n - 1) as nat);
        assert(x[a + (n - 1)] == y[b + (n - 1)]);
    }
}

/// A sum of squared distances is the sum of the squared distances.
pub proof fn deviations_are_sums<S: Scalar>(x: Seq<S>, dev: Seq<S>, start: int, n: nat, mean: S)
    requires
        forall|j: int|
            0 <= j < n ==> #[trigger] dev[j] == S::product(
                S::difference(x[start + j], mean),
                S::difference(x[start + j], mean),
            ),
    ensures
        range_deviation(x, start, n, mean) == range_sum(dev, 0, n),
    decreases n,
{
    if n > 0 {
        deviations_are_sums(x, dev, start, (n - 1) as nat, mean);
        assert(dev[n - 1] == squared_deviation(x[start + n - 1], mean));
    }
}

/// A sum of products is the same with the two sides exchanged.
pub proof fn dot_is_symmetric<S: Scalar>(a: Seq<S>, b: Seq<S>, n: nat)
    requires
        exact_ring::<S>(),
    ensures
        dot(a, b, n) == dot(b, a, n),
    decreases n,
{
    if n > 0 {
        dot_is_symmetric(a, b, (n - 1) as nat);
        lemma_commute(a[n - 1], b[n - 1]);
    }
}

/// A sum of products depends on its factors only.
pub proof fn dot_depends_on_its_elements<S: Scalar>(
    a: Seq<S>,
    b: Seq<S>,
    c: Seq<S>,
    d: Seq<S>,
    n: nat,
)
    requires
        forall|j: int| 0 <= j < n ==> #[trigger] a[j] == c[j],
        forall|j: int| 0 <= j < n ==> #[trigger] b[j] == d[j],
    ensures
        dot(a, b, n) == dot(c, d, n),
    decreases n,
{
    if n > 0 {
        dot_depends_on_its_elements(a, b, c, d, (n - 1) as nat);
        assert(a[n - 1] == c[n - 1] && b[n - 1] == d[n - 1]);
    }
}

/// A factor of all elements of one side is a factor of the sum.
pub proof fn dot_scales<S: Scalar>(a: Seq<S>, b: Seq<S>, scaled: Seq<S>, f: S, n: nat)
    requires
        exact_ring::<S>(),
        forall|j: int| 0 <= j < n ==> #[trigger] scaled[j] == S::product(f, a[j]),
    ensures
        dot(scaled, b, n) == S::product(f, dot(a, b, n)),
    decreases n,
{
    if n > 0 {
        let m = (n - 1) as nat;
        dot_scales(a, b, scaled, f, m);
        assert(scaled[n - 1] == S::product(f, a[n - 1]));
        let term = S::product(a[n - 1], b[n - 1]);
        lemma_regroup_product(f, a[n - 1], b[n - 1]);
        lemma_distribute(dot(a, b, m), term, f);
        lemma_commute(f, S::sum(dot(a, b, m), term));
        lemma_commute(f, dot(a, b, m));
        lemma_commute(f, term);
    } else {
        lemma_zero(f);
        lemma_commute(f, zero::<S>());
    }
}

/// Elements added on one side add their sum of products.
pub proof fn dot_adds<S: Scalar>(a: Seq<S>, b: Seq<S>, total: Seq<S>, c: Seq<S>, n: nat)
    requires
        exact_ring::<S>(),
        forall|j: int| 0 <= j < n ==> #[trigger] total[j] == S::sum(a[j], b[j]),
    ensures
        dot(total, c, n) == S::sum(dot(a, c, n), dot(b, c, n)),
    decreases n,
{
    if n > 0 {
        let m = (n - 1) as nat;
        dot_adds(a, b, total, c, m);
        assert(total[n - 1] == S::sum(a[n - 1], b[n - 1]));
        lemma_distribute(a[n - 1], b[n - 1], c[n - 1]);
        lemma_pairs(
            dot(a, c, m),
            dot(b, c, m),
            S::product(a[n - 1], c[n - 1]),
            S::product(b[n - 1], c[n - 1]),
        );
    } else {
        lemma_zero(zero::<S>());
    }
}

/// A side of zeros gives zero.
pub proof fn dot_with_zeros<S: Scalar>(a: Seq<S>, b: Seq<S>, n: nat)
    requires
        exact_ring::<S>(),
        forall|j: int| 0 <= j < n ==> #[trigger] a[j] == zero::<S>(),
    ensures
        dot(a, b, n) == zero::<S>(),
        dot(b, a, n) == zero::<S>(),
    decreases n,
{
    if n > 0 {
        dot_with_zeros(a, b, (n - 1) as nat);
        assert(a[n - 1] == zero::<S>());
        lemma_zero(b[n - 1]);
        lemma_zero(zero::<S>());
        lemma_commute(zero(), b[n - 1]);
    }
}

/// The first `n` elements are one at place `k` and zero elsewhere.
pub open spec fn is_unit<S: Scalar>(e: Seq<S>, k: int, n: nat) -> bool {
    forall|j: int|
        0 <= j < n ==> #[trigger] e[j] == if j == k {
            one::<S>()
        } else {
            zero::<S>()
        }
}

/// A sum of products with a unit vector is the element at its place.
pub proof fn dot_with_a_unit_vector<S: Scalar>(e: Seq<S>, a: Seq<S>, k: int, n: nat)
    requires
        exact_field::<S>(),
        is_unit(e, k, n),
        0 <= k < n,
    ensures
        dot(e, a, n) == a[k],
    decreases n,
{
    assert(e[n - 1] == if n - 1 == k {
        one::<S>()
    } else {
        zero::<S>()
    });
    if k == n - 1 {
        assert forall|j: int| 0 <= j < n - 1 implies #[trigger] e[j] == zero::<S>() by {}
        dot_with_zeros(e, a, (n - 1) as nat);
        lemma_one(a[k]);
        lemma_zero(a[k]);
    } else {
        dot_with_a_unit_vector(e, a, k, (n - 1) as nat);
        lemma_zero(a[n - 1]);
        lemma_zero(a[k]);
    }
}

} // verus!
