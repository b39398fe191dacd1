//! Laws of the normalization of rows.

use vstd::prelude::*;

use crate::agreement::layer_norms_agree;
use crate::exact::{
    counts_are_sums, exact_field, lemma_cancel, lemma_commute, lemma_distribute, lemma_minus_plus,
    lemma_one, lemma_over_times, lemma_pairs, lemma_quotient_is, lemma_regroup_product, lemma_zero,
};
use crate::index::lemma_cell;
use crate::kernels::reduce::{
    lane_count, lane_deviations, lane_first, lane_mean, lane_sums, lemma_lanes, normalized,
    range_deviation, range_sum,
};
use crate::laws::sums::{deviations_are_sums, sums_depend_on_their_elements};
use crate::reference::{normalized_rows, row_inv_std, row_mean};
use crate::scalar::{above, one, zero, Scalar};

verus! {

proof fn lemma_same_deviation<S: Scalar>(x: Seq<S>, y: Seq<S>, a: int, b: int, n: nat, mean: S)
    requires
        forall|j: int| 0 <= j < n ==> #[trigger] x[a + j] == y[b + j],
    ensures
        range_deviation(x, a, n, mean) == range_deviation(y, b, n, mean),
    decreases n,
{
    if n > 0 {
        lemma_same_deviation(x, y, a, b, (n - 1) as nat, mean);
        assert(x[a + (n - 1)] == y[b + (n - 1)]);
    }
}

/// A normalized element depends on its row, on its own scale and on its own shift, and on
/// nothing else: not on other rows, not on where the row stands, and not on the scale and the
/// shift of other columns.
pub proof fn normalized_elements_depend_on_their_row<S: Scalar>(
    x: Seq<S>,
    y: Seq<S>,
    r: int,
    s: int,
    gamma: Seq<S>,
    delta: Seq<S>,
    beta: Seq<S>,
    shift: Seq<S>,
    dim: nat,
    eps: S,
    i: int,
)
    requires
        0 <= i < dim,
        0 <= r,
        0 <= s,
        (r + 1) * dim <= x.len(),
        (s + 1) * dim <= y.len(),
        forall|j: int| 0 <= j < dim ==> #[trigger] x[r * dim + j] == y[s * dim + j],
        gamma[i] == delta[i],
        beta[i] == shift[i],
    ensures
        normalized_rows(x, gamma, beta, dim, eps)[r * dim + i] == normalized_rows(
            y,
            delta,
            shift,
            dim,
            eps,
        )[s * dim + i],
        normalized(x, gamma, beta, r * dim, dim, eps, i) == normalized(
            y,
            delta,
            shift,
            s * dim,
            dim,
            eps,
            i,
        ),
{
    let (a, b) = (r * dim, s * dim);
    lemma_cell(r, r + 1, i, dim as int);
    lemma_cell(s, s + 1, i, dim as int);
    assert(x[a + i] == y[b + i]);
    sums_depend_on_their_elements(x, y, a, b, dim);
    let mean = row_mean(x, r, dim);
    lemma_same_deviation(x, y, a, b, dim, mean);
    assert(lane_sums(x, a, dim) =~= lane_sums(y, b, dim)) by {
        assert forall|t: int| 0 <= t < 32 implies #[trigger] lane_sums(x, a, dim)[t] == lane_sums(
            y,
            b,
            dim,
        )[t] by {
            lemma_lanes(dim, t);
            let first = lane_first(dim, t);
            assert forall|j: int| 0 <= j < lane_count(dim, t) implies #[trigger] x[a + first + j]
                == y[b + first + j] by {
                assert(x[a + (first + j)] == y[b + (first + j)]);
            }
            sums_depend_on_their_elements(x, y, a + first, b + first, lane_count(dim, t));
        }
    }
    assert(lane_deviations(x, a, dim) =~= lane_deviations(y, b, dim)) by {
        assert forall|t: int| 0 <= t < 32 implies #[trigger] lane_deviations(x, a, dim)[t]
            == lane_deviations(y, b, dim)[t] by {
            lemma_lanes(dim, t);
            let first = lane_first(dim, t);
            assert forall|j: int| 0 <= j < lane_count(dim, t) implies #[trigger] x[a + first + j]
                == y[b + first + j] by {
                assert(x[a + (first + j)] == y[b + (first + j)]);
            }
            lemma_same_deviation(
                x,
                y,
                a + first,
                b + first,
                lane_count(dim, t),
                lane_mean(x, a, dim, t),
            );
        }
    }
}

/// In exact arithmetic, a normalized element less its shift, multiplied by the standard
/// deviation, is its scale times its distance from the mean. The mean times the number of
/// elements is their sum, the variance times their number is the sum of the squared distances,
/// and the standard deviation is the root of the variance with `eps` added.
pub proof fn normalization_centres_and_scales<S: Scalar>(
    x: Seq<S>,
    gamma: Seq<S>,
    beta: Seq<S>,
    r: int,
    dim: nat,
    eps: S,
    i: int,
    mean: S,
    squares: Seq<S>,
    var: S,
)
    requires
        exact_field::<S>(),
        0 <= i < dim,
        0 <= r,
        (r + 1) * dim <= x.len(),
        S::product(mean, S::count_value(dim)) == range_sum(x, r * dim, dim),
        forall|j: int|
            0 <= j < dim ==> #[trigger] squares[j] == S::product(
                S::difference(x[r * dim + j], mean),
                S::difference(x[r * dim + j], mean),
            ),
        S::product(var, S::count_value(dim)) == range_sum(squares, 0, dim),
        above(S::root(S::sum(var, eps)), zero::<S>()),
    ensures
        S::product(
            S::difference(normalized_rows(x, gamma, beta, dim, eps)[r * dim + i], beta[i]),
            S::root(S::sum(var, eps)),
        ) == S::product(gamma[i], S::difference(x[r * dim + i], mean)),
        S::product(
            S::difference(normalized(x, gamma, beta, r * dim, dim, eps, i), beta[i]),
            S::root(S::sum(var, eps)),
        ) == S::product(gamma[i], S::difference(x[r * dim + i], mean)),
{
    reveal(counts_are_sums);
    let std = S::root(S::sum(var, eps));
    assert(above(S::count_value(dim), zero::<S>()));
    lemma_quotient_is(mean, range_sum(x, r * dim, dim), S::count_value(dim));
    deviations_are_sums(x, squares, r * dim, dim, mean);
    lemma_quotient_is(var, range_sum(squares, 0, dim), S::count_value(dim));
    lemma_cell(r, r + 1, i, dim as int);
    let inv = S::quotient(one(), std);
    assert(row_mean(x, r, dim) == mean);
    assert(row_inv_std(x, r, dim, eps) == inv);
    let c = S::difference(x[r * dim + i], mean);
    let scaled = S::product(S::product(c, inv), gamma[i]);
    assert(normalized_rows(x, gamma, beta, dim, eps)[r * dim + i] == S::sum(scaled, beta[i]));
    lemma_minus_plus(scaled, beta[i]);
    // What is left is a factor of one.
    lemma_commute(S::product(c, inv), gamma[i]);
    lemma_regroup_product(gamma[i], c, inv);
    lemma_regroup_product(S::product(gamma[i], c), inv, std);
    lemma_over_times(one(), std);
    lemma_one(S::product(gamma[i], c));
    layer_norms_agree(x, gamma, beta, r, dim, eps, i);
}

/// In exact arithmetic, scale and shift are applied to the row that is normalized without
/// them.
pub proof fn scale_and_shift_come_last<S: Scalar>(
    x: Seq<S>,
    gamma: Seq<S>,
    beta: Seq<S>,
    ones: Seq<S>,
    zeros: Seq<S>,
    r: int,
    dim: nat,
    eps: S,
    i: int,
)
    requires
        exact_field::<S>(),
        0 <= i < dim,
        0 <= r,
        (r + 1) * dim <= x.len(),
        ones[i] == one::<S>(),
        zeros[i] == zero::<S>(),
    ensures
        normalized_rows(x, gamma, beta, dim, eps)[r * dim + i] == S::sum(
            S::product(normalized_rows(x, ones, zeros, dim, eps)[r * dim + i], gamma[i]),
            beta[i],
        ),
{
    lemma_cell(r, r + 1, i, dim as int);
    let c = S::product(
        S::difference(x[r * dim + i], row_mean(x, r, dim)),
        row_inv_std(x, r, dim, eps),
    );
    lemma_one(c);
    lemma_zero(c);
}

proof fn lemma_sum_of_differences<S: Scalar>(x: Seq<S>, start: int, d: Seq<S>, mean: S, n: nat)
    requires
        exact_field::<S>(),
        forall|j: int|
            0 <= j < n ==> #[trigger] d[j] == S::difference(x[start + j], mean),
    ensures
        S::sum(range_sum(d, 0, n), S::product(mean, S::count_value(n))) == range_sum(x, start, n),
    decreases n,
{
    reveal(counts_are_sums);
    if n > 0 {
        let m = (n - 1) as nat;
        lemma_sum_of_differences(x, start, d, mean, m);
        assert(d[n - 1] == S::difference(x[start + (n - 1)], mean));
        assert(S::count_value(m + 1) == S::sum(S::count_value(m), one()));
        assert(m + 1 == n);
        lemma_commute(mean, S::count_value(n));
        lemma_commute(mean, S::count_value(m));
        lemma_distribute(S::count_value(m), one(), mean);
        lemma_one(mean);
        lemma_pairs(range_sum(d, 0, m), d[n - 1], S::product(mean, S::count_value(m)), mean);
        lemma_minus_plus(x[start + n - 1], mean);
    } else {
        lemma_commute(mean, zero::<S>());
        lemma_zero(mean);
        lemma_zero(zero::<S>());
    }
}

proof fn lemma_sum_of_products<S: Scalar>(d: Seq<S>, y: Seq<S>, start: int, f: S, n: nat)
    requires
        exact_field::<S>(),
        forall|j: int| 0 <= j < n ==> #[trigger] y[start + j] == S::product(d[j], f),
    ensures
        range_sum(y, start, n) == S::product(range_sum(d, 0, n), f),
    decreases n,
{
    if n > 0 {
        let m = (n - 1) as nat;
        lemma_sum_of_products(d, y, start, f, m);
        assert(y[start + (n - 1)] == S::product(d[n - 1], f));
        lemma_distribute(range_sum(d, 0, m), d[n - 1], f);
    } else {
        lemma_zero(f);
    }
}

/// In exact arithmetic, the elements of a row that is normalized without scale and shift add
/// up to zero.
pub proof fn normalized_rows_add_up_to_zero<S: Scalar>(
    x: Seq<S>,
    ones: Seq<S>,
    zeros: Seq<S>,
    r: int,
    dim: nat,
    eps: S,
)
    requires
        exact_field::<S>(),
        0 < dim,
        0 <= r,
        (r + 1) * dim <= x.len(),
        forall|j: int| 0 <= j < dim ==> #[trigger] ones[j] == one::<S>(),
        forall|j: int| 0 <= j < dim ==> #[trigger] zeros[j] == zero::<S>(),
    ensures
        range_sum(normalized_rows(x, ones, zeros, dim, eps), r * dim, dim) == zero::<S>(),
{
    let start = r * dim;
    let y = normalized_rows(x, ones, zeros, dim, eps);
    let mean = row_mean(x, r, dim);
    let inv = row_inv_std(x, r, dim, eps);
    let d = Seq::new(dim, |j: int| S::difference(x[start + j], mean));
    assert forall|j: int| 0 <= j < dim implies #[trigger] y[start + j] == S::product(d[j], inv) by {
        lemma_cell(r, r + 1, j, dim as int);
        assert(ones[j] == one::<S>() && zeros[j] == zero::<S>());
        lemma_one(S::product(d[j], inv));
        lemma_zero(S::product(d[j], inv));
    }
    lemma_sum_of_products(d, y, start, inv, dim);
    lemma_sum_of_differences(x, start, d, mean, dim);
    let total = range_sum(x, start, dim);
    assert(above(S::count_value(dim), zero::<S>())) by {
        reveal(counts_are_sums);
    }
    lemma_over_times(total, S::count_value(dim));
    lemma_zero(total);
    lemma_cancel(range_sum(d, 0, dim), zero(), total);
    lemma_zero(inv);
}

} // verus!
