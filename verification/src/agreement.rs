//! Where the kernels agree with the reference.
//!
//! The kernels add in the order that suits the device, the reference in the plain order. In
//! exact arithmetic they compute the same.

use vstd::prelude::*;

use crate::exact::{
    exact_fused, exact_ring, lemma_commute, lemma_commute_sum, lemma_distribute, lemma_pairs,
    lemma_regroup_sum, lemma_swap_last, lemma_zero,
};
use crate::index::lemma_cell;
use crate::kernels::attention::{
    attended, component, exponentials, flash_row, flash_value, running_max, score, score_row,
    tiles_seen,
};
use crate::kernels::elementwise::gelu_value;
use crate::kernels::gemm::{fused_dot, product_element};
use crate::kernels::online::{
    counts, exact_exponential, exp_of, lemma_attended, lemma_factor, lemma_fraction,
    lemma_masked_tail, lemma_row_positive, lemma_running_max, lemma_scores_count,
    scores_have_weight, sums_stay_positive, tiled_attention_is_attention, value_sum, weight_sum,
};
use crate::kernels::reduce::{
    butterfly, exchanged, half_up, lane_count, lane_deviations, lane_first, lane_inv_std,
    lane_mean, lane_share, lane_sums, lemma_lanes, normalized, partner,
    range_deviation, range_sum, shifted_exponentials, softmax_value, squared_deviation,
    sum_halved, sum_reduced,
};
use crate::reference::{
    causal_scores, column, gelu_of, matmul_element, matmul_value, normalized_rows, range_max,
    row_exponentials, row_inv_std, row_mean, softmax_rows,
};
use crate::scalar::{above, one, zero, Constant, Scalar};
use crate::tensor::dot;

verus! {

/// Two adjoining stretches are summed as one.
proof fn lemma_concat<S: Scalar>(x: Seq<S>, start: int, n: nat, k: nat)
    requires
        exact_ring::<S>(),
    ensures
        S::sum(range_sum(x, start, n), range_sum(x, start + n, k)) == range_sum(x, start, n + k),
    decreases k,
{
    if k > 0 {
        lemma_concat(x, start, n, (k - 1) as nat);
        lemma_regroup_sum(
            range_sum(x, start, n),
            range_sum(x, start + n, (k - 1) as nat),
            x[start + n + k - 1],
        );
    } else {
        lemma_zero(range_sum(x, start, n));
    }
}

/// Sums added element by element are the sum of the sums.
proof fn lemma_added<S: Scalar>(x: Seq<S>, y: Seq<S>, o: int, n: nat)
    requires
        exact_ring::<S>(),
        forall|j: int| 0 <= j < n ==> #[trigger] y[j] == S::sum(x[j], x[j + o]),
    ensures
        range_sum(y, 0, n) == S::sum(range_sum(x, 0, n), range_sum(x, o, n)),
    decreases n,
{
    if n > 0 {
        let m = (n - 1) as nat;
        lemma_added(x, y, o, m);
        lemma_pairs(range_sum(x, 0, m), range_sum(x, o, m), x[n - 1], x[o + n - 1]);
        assert(y[n - 1] == S::sum(x[n - 1], x[n - 1 + o]));
    } else {
        lemma_zero(range_sum(x, 0, 0));
    }
}

/// The distances of an exchange.
spec fn is_distance(o: u32) -> bool {
    o == 1 || o == 2 || o == 4 || o == 8 || o == 16
}

/// An exchange partner lies in the other half of the same stretch.
proof fn lemma_partner_place(i: u32, o: u32)
    requires
        i < 32,
        is_distance(o),
    ensures
        0 <= partner(i as int, o) < 32,
        partner(i as int, o) % (2 * o as int) == if i as int % (2 * o as int) < o {
            i as int % (2 * o as int) + o
        } else {
            i as int % (2 * o as int) - o
        },
{
    let p: u32 = i ^ o;
    if o == 1 {
        assert(p < 32 && (i % 2 < 1 ==> p % 2 == i % 2 + 1) && (i % 2 >= 1 ==> p % 2 + 1 == i % 2))
            by (bit_vector)
            requires
                i < 32,
                p == i ^ o,
                o == 1,
        ;
    } else if o == 2 {
        assert(p < 32 && (i % 4 < 2 ==> p % 4 == i % 4 + 2) && (i % 4 >= 2 ==> p % 4 + 2 == i % 4))
            by (bit_vector)
            requires
                i < 32,
                p == i ^ o,
                o == 2,
        ;
    } else if o == 4 {
        assert(p < 32 && (i % 8 < 4 ==> p % 8 == i % 8 + 4) && (i % 8 >= 4 ==> p % 8 + 4 == i % 8))
            by (bit_vector)
            requires
                i < 32,
                p == i ^ o,
                o == 4,
        ;
    } else if o == 8 {
        assert(p < 32 && (i % 16 < 8 ==> p % 16 == i % 16 + 8) && (i % 16 >= 8 ==> p % 16 + 8 == i
            % 16)) by (bit_vector)
            requires
                i < 32,
                p == i ^ o,
                o == 8,
        ;
    } else {
        assert(p < 32 && (i % 32 < 16 ==> p % 32 == i % 32 + 16) && (i % 32 >= 16 ==> p % 32 + 16
            == i % 32)) by (bit_vector)
            requires
                i < 32,
                p == i ^ o,
                o == 16,
        ;
    }
}

/// A place in the second half of a stretch is one distance behind one in the first.
proof fn lemma_half(i: int, o: u32)
    requires
        is_distance(o),
    ensures
        i % o as int == if i % (2 * o as int) < o {
            i % (2 * o as int)
        } else {
            i % (2 * o as int) - o
        },
{
    let w = 2 * o as int;
    let m = i % w;
    vstd::arithmetic::div_mod::lemma_mod_mod(i, o as int, 2);
    vstd::arithmetic::div_mod::lemma_mod_bound(i, w);
    if m < o {
        vstd::arithmetic::div_mod::lemma_fundamental_div_mod_converse(m, o as int, 0, m);
    } else {
        vstd::arithmetic::div_mod::lemma_fundamental_div_mod_converse(m, o as int, 1, m - o);
    }
}

/// Values that repeat after twice the distance repeat after the distance once they are
/// exchanged and added.
proof fn lemma_exchanged<S: Scalar>(vals: Seq<S>, o: u32, i: int)
    requires
        exact_ring::<S>(),
        vals.len() == 32,
        is_distance(o),
        forall|j: int| 0 <= j < 32 ==> vals[j] == #[trigger] vals[j % (2 * o as int)],
        0 <= i < 32,
    ensures
        exchanged(vals, o)[i] == S::sum(vals[i % o as int], vals[i % o as int + o]),
{
    lemma_partner_place(i as u32, o);
    let w = 2 * o as int;
    let p = partner(i, o);
    assert(exchanged(vals, o)[i] == S::sum(vals[i], vals[p]));
    assert(vals[i] == vals[i % w]);
    assert(vals[p] == vals[p % w]);
    lemma_half(i, o);
    lemma_commute_sum(vals[i % w], vals[p % w]);
}

proof fn lemma_butterfly<S: Scalar>(vals: Seq<S>, o: u32, lane: int)
    requires
        exact_ring::<S>(),
        vals.len() == 32,
        is_distance(o),
        forall|j: int| 0 <= j < 32 ==> vals[j] == #[trigger] vals[j % (2 * o as int)],
        0 <= lane < 32,
    ensures
        butterfly(vals, o)[lane] == range_sum(vals, 0, 2 * o as nat),
    decreases o,
{
    let next = exchanged(vals, o);
    assert forall|j: int| 0 <= j < 32 implies next[j] == S::sum(
        vals[j % o as int],
        vals[j % o as int + o],
    ) by {
        lemma_exchanged(vals, o, j);
    }
    assert forall|j: int| 0 <= j < o implies #[trigger] next[j] == S::sum(vals[j], vals[j + o]) by {
        assert(j % o as int == j);
    }
    lemma_added(vals, next, o as int, o as nat);
    lemma_concat(vals, 0, o as nat, o as nat);
    assert(range_sum(next, 0, o as nat) == range_sum(vals, 0, 2 * o as nat));
    if o == 1 {
        assert(butterfly(vals, 1) == butterfly(next, 0));
        assert(next[lane] == next[0]);
        reveal_with_fuel(range_sum, 2);
        lemma_zero(next[0]);
    } else {
        let h = (o / 2) as u32;
        assert forall|j: int| 0 <= j < 32 implies next[j] == #[trigger] next[j % (2 * h as int)] by {
            assert(2 * h == o);
            let m = j % o as int;
            assert(0 <= m < 32 && m % o as int == m);
        }
        lemma_butterfly(next, h, lane);
    }
}

/// In exact arithmetic, what every lane gets from the exchange is the sum of all lanes.
pub proof fn warp_sum_is_the_sum<S: Scalar>(vals: Seq<S>, lane: int)
    requires
        exact_ring::<S>(),
        vals.len() == 32,
        0 <= lane < 32,
    ensures
        butterfly(vals, 16)[lane] == range_sum(vals, 0, 32),
{
    assert forall|j: int| 0 <= j < 32 implies vals[j] == #[trigger] vals[j % (2 * 16u32 as int)] by {
        assert(j % 32 == j);
    }
    lemma_butterfly(vals, 16, lane);
}

/// The sums of the first lanes add up to the sum of all their elements.
proof fn lemma_shares<S: Scalar>(x: Seq<S>, sums: Seq<S>, base: int, d: nat, n: nat)
    requires
        exact_ring::<S>(),
        d > 0,
        n <= 32,
        sums.len() == 32,
        forall|t: int|
            0 <= t < 32 ==> #[trigger] sums[t] == range_sum(
                x,
                base + lane_first(d, t),
                lane_count(d, t),
            ),
    ensures
        range_sum(sums, 0, n) == range_sum(x, base, lane_first(d, n as int) as nat),
    decreases n,
{
    lemma_lanes(d, 0);
    if n > 0 {
        let m = (n - 1) as nat;
        lemma_shares(x, sums, base, d, m);
        lemma_lanes(d, m as int);
        lemma_concat(x, base, lane_first(d, m as int) as nat, lane_count(d, m as int));
        assert(sums[n - 1] == range_sum(x, base + lane_first(d, n - 1), lane_count(d, n - 1)));
    }
}

/// A sum of squared distances is a sum.
proof fn lemma_deviation<S: Scalar>(x: Seq<S>, dev: Seq<S>, start: int, n: nat, mean: S)
    requires
        dev.len() == x.len(),
        0 <= start,
        start + n <= x.len(),
        forall|i: int| 0 <= i < x.len() ==> #[trigger] dev[i] == squared_deviation(x[i], mean),
    ensures
        range_deviation(x, start, n, mean) == range_sum(dev, start, n),
    decreases n,
{
    if n > 0 {
        lemma_deviation(x, dev, start, (n - 1) as nat, mean);
        assert(dev[start + n - 1] == squared_deviation(x[start + n - 1], mean));
    }
}

proof fn lemma_lane_mean<S: Scalar>(x: Seq<S>, base: int, d: nat, lane: int)
    requires
        exact_ring::<S>(),
        d > 0,
        0 <= lane < 32,
    ensures
        lane_mean(x, base, d, lane) == S::quotient(range_sum(x, base, d), S::count_value(d)),
{
    let sums = lane_sums(x, base, d);
    warp_sum_is_the_sum(sums, lane);
    lemma_lanes(d, 0);
    lemma_shares(x, sums, base, d, 32);
}

proof fn lemma_lane_inv_std<S: Scalar>(x: Seq<S>, base: int, d: nat, eps: S, lane: int)
    requires
        exact_ring::<S>(),
        d > 0,
        0 <= lane < 32,
        0 <= base,
        base + d <= x.len(),
    ensures
        ({
            let mean = S::quotient(range_sum(x, base, d), S::count_value(d));
            let var = S::quotient(range_deviation(x, base, d, mean), S::count_value(d));
            lane_inv_std(x, base, d, eps, lane) == S::quotient(one(), S::root(S::sum(var, eps)))
        }),
{
    let mean = S::quotient(range_sum(x, base, d), S::count_value(d));
    let dev = Seq::new(x.len(), |i: int| squared_deviation(x[i], mean));
    let sums = lane_deviations(x, base, d);
    assert forall|t: int| 0 <= t < 32 implies #[trigger] sums[t] == range_sum(
        dev,
        base + lane_first(d, t),
        lane_count(d, t),
    ) by {
        lemma_lane_mean(x, base, d, t);
        lemma_lanes(d, t);
        lemma_deviation(x, dev, base + lane_first(d, t), lane_count(d, t), mean);
    }
    warp_sum_is_the_sum(sums, lane);
    lemma_lanes(d, 0);
    lemma_shares(dev, sums, base, d, 32);
    lemma_deviation(x, dev, base, d, mean);
}

/// In exact arithmetic, the kernel and the reference normalize a row alike: mean and
/// variance are those of all its elements.
pub proof fn layer_norms_agree<S: Scalar>(
    x: Seq<S>,
    gamma: Seq<S>,
    beta: Seq<S>,
    r: int,
    d_model: nat,
    eps: S,
    i: int,
)
    requires
        exact_ring::<S>(),
        0 <= r,
        (r + 1) * d_model <= x.len(),
        0 <= i < d_model,
    ensures
        normalized(x, gamma, beta, r * d_model, d_model, eps, i) == normalized_rows(
            x,
            gamma,
            beta,
            d_model,
            eps,
        )[r * d_model + i],
{
    let d = d_model;
    let base = r * d;
    let share = lane_share(d) as int;
    let lane = i / share;
    assert(0 <= base && base + d <= x.len()) by (nonlinear_arith)
        requires
            base == r * d,
            0 <= r,
            (r + 1) * d <= x.len(),
            d >= 0,
    ;
    assert(0 <= lane < 32) by (nonlinear_arith)
        requires
            lane == i / share,
            0 <= i < 32 * share,
            share > 0,
    ;
    lemma_lane_mean(x, base, d, lane);
    lemma_lane_inv_std(x, base, d, eps, lane);
    lemma_cell(r, r + 1, i, d as int);
    let mean = row_mean(x, r, d);
    let inv = row_inv_std(x, r, d, eps);
    let c = S::difference(x[base + i], mean);
    let g = gamma[i];
    lemma_commute(g, c);
    lemma_swap_last(c, g, inv);
}

/// In exact arithmetic, a dot product with fused steps is a dot product.
proof fn lemma_fused<S: Scalar>(a: Seq<S>, b: Seq<S>, n: nat)
    requires
        exact_ring::<S>(),
        exact_fused::<S>(),
    ensures
        fused_dot(a, b, n) == dot(a, b, n),
    decreases n,
{
    if n > 0 {
        lemma_fused(a, b, (n - 1) as nat);
        let before = dot(a, b, (n - 1) as nat);
        let term = S::product(a[n - 1], b[n - 1]);
        assert(S::fused_value(a[n - 1], b[n - 1], before) == S::sum(term, before)) by {
            reveal(exact_fused);
        }
        lemma_commute_sum(term, before);
    }
}

proof fn lemma_same_dot<S: Scalar>(a: Seq<S>, b: Seq<S>, c: Seq<S>, n: nat)
    requires
        forall|p: int| 0 <= p < n ==> b[p] == c[p],
    ensures
        dot(a, b, n) == dot(a, c, n),
    decreases n,
{
    if n > 0 {
        lemma_same_dot(a, b, c, (n - 1) as nat);
    }
}

/// In exact arithmetic, the kernel's product with a matrix turned to columns is the
/// reference's product with the matrix itself.
pub proof fn products_agree<S: Scalar>(
    a: Seq<S>,
    b: Seq<S>,
    turned: Seq<S>,
    k: nat,
    n: nat,
    r: int,
    c: int,
)
    requires
        exact_ring::<S>(),
        exact_fused::<S>(),
        0 <= r,
        0 <= c < n,
        turned.len() == n * k,
        forall|p: int, q: int|
            0 <= p < k && 0 <= q < n ==> #[trigger] turned[q * k + p] == b[p * n + q],
    ensures
        product_element(a, turned, k, r, c) == matmul_element(a, b, k, n as int, r, c),
{
    let row = a.subrange(r * k, r * k + k);
    let col = turned.subrange(c * k, c * k + k);
    lemma_fused(row, col, k);
    assert forall|p: int| 0 <= p < k implies col[p] == column(b, k, n as int, c)[p] by {
        lemma_cell(c, n as int, p, k as int);
        assert(col[p] == turned[c * k + p]);
    }
    lemma_same_dot(row, col, column(b, k, n as int, c), k);
}

/// The score that the reference gives to a hidden position.
pub open spec fn hidden<S: Scalar>() -> S {
    S::constant_value(Constant::NegInfinity)
}

/// The greater of two scores counts if one of them does.
#[verifier::opaque]
pub open spec fn maximum_counts<S: Scalar>() -> bool {
    forall|a: S, b: S|
        counts(a) || counts(b) ==> counts(#[trigger] S::maximum(a, b))
}

/// The exponential for a hidden position is zero.
#[verifier::opaque]
pub open spec fn hidden_weighs_nothing<S: Scalar>() -> bool {
    forall|c: S| counts(c) ==> #[trigger] exp_of(hidden(), c) == zero::<S>()
}

/// A quotient is a product with an inverse.
#[verifier::opaque]
pub open spec fn quotients_are_products<S: Scalar>() -> bool {
    forall|a: S, b: S| #[trigger] S::quotient(a, b) == S::product(a, S::quotient(one(), b))
}

/// What the reference's softmax takes from exact arithmetic.
pub open spec fn exact_softmax<S: Scalar>() -> bool {
    &&& maximum_counts::<S>()
    &&& hidden_weighs_nothing::<S>()
    &&& quotients_are_products::<S>()
}

pub(crate) proof fn lemma_range_max<S: Scalar>(x: Seq<S>, start: int, n: nat)
    requires
        exact_softmax::<S>(),
        n > 0,
        counts(x[start]),
    ensures
        counts(range_max(x, start, n)),
    decreases n,
{
    reveal(maximum_counts);
    if n > 1 {
        lemma_range_max(x, start, (n - 1) as nat);
    }
}

/// Equal scores have equal sums.
proof fn lemma_same_sums<S: Scalar>(a: Seq<S>, b: Seq<S>, v: Seq<S>, w: Seq<S>, m: S, n: nat)
    requires
        n <= a.len(),
        n <= b.len(),
        forall|j: int| 0 <= j < n ==> #[trigger] a[j] == b[j],
        forall|j: int| 0 <= j < n ==> #[trigger] v[j] == w[j],
    ensures
        weight_sum(a, m, n) == weight_sum(b, m, n),
        value_sum(a, v, m, n) == value_sum(b, w, m, n),
    decreases n,
{
    if n > 0 {
        lemma_same_sums(a, b, v, w, m, (n - 1) as nat);
        assert(a[n - 1] == b[n - 1] && v[n - 1] == w[n - 1]);
        assert(exponentials(a, m)[n - 1] == exponentials(b, m)[n - 1]);
    }
}

/// Hidden positions have no weight.
proof fn lemma_hidden_tail<S: Scalar>(scores: Seq<S>, v: Seq<S>, m: S, n: nat, all: nat)
    requires
        exact_ring::<S>(),
        exact_softmax::<S>(),
        counts(m),
        n <= all <= scores.len(),
        forall|j: int| n <= j < all ==> #[trigger] scores[j] == hidden::<S>(),
    ensures
        weight_sum(scores, m, n) == weight_sum(scores, m, all),
        value_sum(scores, v, m, n) == value_sum(scores, v, m, all),
    decreases all - n,
{
    if n < all {
        lemma_hidden_tail(scores, v, m, n, (all - 1) as nat);
        let e = exponentials(scores, m)[all - 1];
        assert(scores[all - 1] == hidden::<S>());
        assert(e == exp_of(hidden(), m));
        assert(e == zero::<S>()) by {
            reveal(hidden_weighs_nothing);
        }
        lemma_zero(v[all - 1]);
        lemma_zero(weight_sum(scores, m, (all - 1) as nat));
        lemma_zero(value_sum(scores, v, m, (all - 1) as nat));
    }
}

/// In exact arithmetic, the reference's attention over a head is the kernel's with the
/// causal mask, as long as every score that is not masked is above that of a masked
/// position.
pub proof fn attentions_agree<S: Scalar>(
    q: Seq<S>,
    k: Seq<S>,
    v: Seq<S>,
    seq: nat,
    d_head: nat,
    i: int,
    d: int,
)
    requires
        exact_ring::<S>(),
        exact_exponential::<S>(),
        exact_softmax::<S>(),
        0 <= i < seq,
        0 <= d < d_head,
        forall|j: int|
            0 <= j <= i ==> counts(#[trigger] score(q, k, 0, d_head as int, true, i, j)),
    ensures
        matmul_value(
            softmax_rows(causal_scores(q, k, seq, d_head), seq),
            v,
            seq,
            seq,
            d_head,
        )[i * d_head + d] == attended(q, k, v, 0, seq, d_head as int, true, i, d),
{
    let table = causal_scores(q, k, seq, d_head);
    let soft = softmax_rows(table, seq);
    let row = table.subrange(i * seq, i * seq + seq);
    let scores = score_row(q, k, 0, seq, d_head as int, true, i);
    let vd = component(v, 0, d_head as int, d, seq);
    let n = (i + 1) as nat;
    lemma_cell(i, seq as int, 0, seq as int);
    lemma_cell(i, seq as int, d, d_head as int);
    assert forall|j: int| 0 <= j < seq implies #[trigger] row[j] == if j <= i {
        scores[j]
    } else {
        hidden::<S>()
    } by {
        lemma_cell(i, seq as int, j, seq as int);
        if j <= i {
            assert(scores[j] == score(q, k, 0, d_head as int, true, i, j));
        }
    }
    lemma_scores_count(q, k, 0, seq, d_head as int, true, i);
    // The reference's row.
    let top = range_max(table, i * seq, seq);
    assert(row[0] == scores[0]);
    assert(counts(table[i * seq])) by {
        assert(row[0] == table[i * seq]);
        assert(scores[0] == score(q, k, 0, d_head as int, true, i, 0));
    }
    lemma_range_max(table, i * seq, seq);
    let e = row_exponentials(table, i, seq);
    assert(e =~= exponentials(row, top));
    let inv = S::quotient(one(), range_sum(e, 0, seq));
    let weights_row = soft.subrange(i * seq, i * seq + seq);
    assert(weights_row =~= Seq::new(e.len(), |j: int| S::product(e[j], inv))) by {
        assert forall|j: int| 0 <= j < seq implies #[trigger] weights_row[j] == S::product(
            e[j],
            inv,
        ) by {
            lemma_cell(i, seq as int, j, seq as int);
            reveal(quotients_are_products);
            assert(weights_row[j] == S::quotient(e[j], range_sum(e, 0, seq)));
        }
    }
    let col = column(v, seq, d_head as int, d);
    assert(col =~= vd);
    lemma_factor(e, weights_row, vd, inv, seq);
    lemma_hidden_tail(row, vd, top, n, seq);
    // The kernel's row.
    let peak = running_max(scores, seq);
    lemma_running_max(scores, true, i, seq);
    lemma_attended(q, k, v, 0, seq, d_head as int, true, i, d);
    lemma_masked_tail(scores, vd, peak, i, n, seq);
    // What both have in common.
    lemma_same_sums(row, scores, vd, vd, top, n);
    lemma_fraction(scores, vd, top, peak, n);
}

/// In exact arithmetic, a row with the causal mask attends to the positions up to its own:
/// its result is that of plain attention over these alone.
pub proof fn causal_rows_attend_to_the_past<S: Scalar>(
    q: Seq<S>,
    k: Seq<S>,
    v: Seq<S>,
    base: int,
    seq_len: nat,
    d_head: int,
    i: int,
    d: int,
)
    requires
        exact_ring::<S>(),
        exact_exponential::<S>(),
        0 <= i < seq_len,
        0 <= d < d_head,
        forall|j: int| 0 <= j <= i ==> counts(#[trigger] score(q, k, base, d_head, true, i, j)),
    ensures
        attended(q, k, v, base, seq_len, d_head, true, i, d) == attended(
            q,
            k,
            v,
            base,
            (i + 1) as nat,
            d_head,
            false,
            i,
            d,
        ),
{
    let n = (i + 1) as nat;
    let long = score_row(q, k, base, seq_len, d_head, true, i);
    let short = score_row(q, k, base, n, d_head, false, i);
    let long_v = component(v, base, d_head, d, seq_len);
    let short_v = component(v, base, d_head, d, n);
    assert forall|j: int| 0 <= j < n implies counts(
        #[trigger] score(q, k, base, d_head, false, i, j),
    ) by {
        assert(counts(score(q, k, base, d_head, true, i, j)));
    }
    lemma_scores_count(q, k, base, seq_len, d_head, true, i);
    lemma_scores_count(q, k, base, n, d_head, false, i);
    let peak = running_max(long, seq_len);
    let top = running_max(short, n);
    lemma_running_max(long, true, i, seq_len);
    lemma_running_max(short, false, i, n);
    lemma_attended(q, k, v, base, seq_len, d_head, true, i, d);
    lemma_attended(q, k, v, base, n, d_head, false, i, d);
    lemma_masked_tail(long, long_v, peak, i, n, seq_len);
    lemma_same_sums(long, short, long_v, short_v, peak, n);
    lemma_fraction(short, short_v, peak, top, n);
}

/// In exact arithmetic, what the tiled kernel writes to a row with the causal mask is plain
/// attention over the positions up to the row.
pub proof fn tiled_rows_attend_to_the_past<S: Scalar>(
    q: Seq<S>,
    k: Seq<S>,
    v: Seq<S>,
    base: int,
    seq_len: int,
    d_head: int,
    q_tile: int,
    i: int,
    d: int,
)
    requires
        exact_ring::<S>(),
        exact_exponential::<S>(),
        scores_have_weight::<S>(),
        sums_stay_positive::<S>(),
        0 <= q_tile,
        32 * q_tile <= i < 32 * q_tile + 32,
        i < seq_len,
        0 <= d < d_head,
        forall|j: int| 0 <= j <= i ==> counts(#[trigger] score(q, k, base, d_head, true, i, j)),
    ensures
        ({
            let t = tiles_seen(q_tile, seq_len, true);
            let state = flash_row(q, k, v, base, seq_len, d_head, true, i, t);
            &&& above(state.l, zero::<S>())
            &&& flash_value(state, d) == attended(
                q,
                k,
                v,
                base,
                (i + 1) as nat,
                d_head,
                false,
                i,
                d,
            )
        }),
{
    let t = tiles_seen(q_tile, seq_len, true);
    lemma_row_positive(q, k, v, base, seq_len, d_head, true, i, t);
    tiled_attention_is_attention(q, k, v, base, seq_len, d_head, true, q_tile, i, d);
    causal_rows_attend_to_the_past(q, k, v, base, seq_len as nat, d_head, i, d);
}

/// A product with one is the other factor.
#[verifier::opaque]
pub open spec fn one_changes_nothing<S: Scalar>() -> bool {
    forall|a: S| #[trigger] S::product(one(), a) == a
}

/// In exact arithmetic, the first row with the causal mask is the first row of the values.
pub proof fn first_row_is_its_value<S: Scalar>(
    q: Seq<S>,
    k: Seq<S>,
    v: Seq<S>,
    base: int,
    seq_len: nat,
    d_head: int,
    d: int,
)
    requires
        exact_ring::<S>(),
        exact_exponential::<S>(),
        scores_have_weight::<S>(),
        inverses_exist::<S>(),
        one_changes_nothing::<S>(),
        0 < seq_len,
        0 <= d < d_head,
        counts(score(q, k, base, d_head, true, 0, 0)),
    ensures
        attended(q, k, v, base, seq_len, d_head, true, 0, d) == v[base + d],
{
    causal_rows_attend_to_the_past(q, k, v, base, seq_len, d_head, 0, d);
    let scores = score_row(q, k, base, 1, d_head, false, 0);
    let s = score(q, k, base, d_head, true, 0, 0);
    let vd = component(v, base, d_head, d, 1);
    assert(scores[0] == s && vd[0] == v[base + d]);
    assert(running_max(scores, 1) == s);
    lemma_attended(q, k, v, base, 1, d_head, false, 0, d);
    let e = exp_of(s, s);
    assert(exponentials(scores, s)[0] == e);
    assert(weight_sum(scores, s, 1) == e) by {
        reveal_with_fuel(range_sum, 2);
        lemma_zero(e);
    }
    assert(value_sum(scores, vd, s, 1) == S::product(e, vd[0])) by {
        reveal_with_fuel(dot, 2);
        lemma_zero(S::product(e, vd[0]));
    }
    let inv = S::quotient(one(), e);
    lemma_swap_last(e, vd[0], inv);
    assert(above(e, zero::<S>())) by {
        reveal(scores_have_weight);
    }
    reveal(inverses_exist);
    reveal(one_changes_nothing);
}

/// In exact arithmetic, the sum that is computed in halves is the sum of all elements.
pub proof fn reduced_sum_is_the_sum<S: Scalar>(x: Seq<S>)
    requires
        exact_ring::<S>(),
        x.len() > 0,
    ensures
        sum_reduced(x) == range_sum(x, 0, x.len()),
    decreases x.len(),
{
    let n = x.len();
    if n == 1 {
        reveal_with_fuel(range_sum, 2);
        lemma_zero(x[0]);
    } else {
        let next = sum_halved(x);
        let stride = half_up(n);
        let paired = (n - stride) as nat;
        assert forall|j: int| 0 <= j < paired implies #[trigger] next[j] == S::sum(
            x[j],
            x[j + stride],
        ) by {}
        lemma_added(x, next, stride as int, paired);
        reduced_sum_is_the_sum(next);
        if paired < stride {
            // The element in the middle has no partner and stays as it is.
            let (front, back) = (range_sum(x, 0, paired), range_sum(x, stride as int, paired));
            let middle = x[paired as int];
            assert(next[paired as int] == middle);
            lemma_regroup_sum(front, back, middle);
            lemma_commute_sum(back, middle);
            lemma_regroup_sum(front, middle, back);
            assert(range_sum(x, 0, stride) == S::sum(front, middle));
        }
        lemma_concat(x, 0, stride, paired);
    }
}

/// A factor is taken out of a sum.
pub(crate) proof fn lemma_sum_factor<S: Scalar>(e: Seq<S>, w: Seq<S>, inv: S, n: nat)
    requires
        exact_ring::<S>(),
        forall|j: int| 0 <= j < n ==> #[trigger] w[j] == S::product(e[j], inv),
    ensures
        range_sum(w, 0, n) == S::product(range_sum(e, 0, n), inv),
    decreases n,
{
    if n > 0 {
        lemma_sum_factor(e, w, inv, (n - 1) as nat);
        lemma_distribute(range_sum(e, 0, (n - 1) as nat), e[n - 1], inv);
        assert(w[n - 1] == S::product(e[n - 1], inv));
    } else {
        lemma_zero(inv);
    }
}

/// A number above zero has an inverse.
#[verifier::opaque]
pub open spec fn inverses_exist<S: Scalar>() -> bool {
    forall|x: S|
        above(x, zero::<S>()) ==> #[trigger] S::product(x, S::quotient(one(), x)) == one::<S>()
}

/// In exact arithmetic, the softmax adds up to one, if the exponentials add up to
/// something.
pub proof fn softmax_adds_up_to_one<S: Scalar>(x: Seq<S>)
    requires
        exact_ring::<S>(),
        quotients_are_products::<S>(),
        inverses_exist::<S>(),
        x.len() > 0,
        above(
            range_sum(shifted_exponentials(x), 0, x.len()),
            zero::<S>(),
        ),
    ensures
        range_sum(softmax_value(x), 0, x.len()) == one::<S>(),
{
    let n = x.len();
    let e = shifted_exponentials(x);
    reduced_sum_is_the_sum(e);
    let total = sum_reduced(e);
    let inv = S::quotient(one(), total);
    let w = softmax_value(x);
    assert forall|j: int| 0 <= j < n implies #[trigger] w[j] == S::product(e[j], inv) by {
        reveal(quotients_are_products);
        assert(w[j] == S::quotient(e[j], total));
    }
    lemma_sum_factor(e, w, inv, n);
    reveal(inverses_exist);
}

/// In exact arithmetic, each element of the softmax is its exponential divided by the sum
/// of all exponentials.
pub proof fn softmax_divides_by_the_sum<S: Scalar>(x: Seq<S>, i: int)
    requires
        exact_ring::<S>(),
        0 <= i < x.len(),
    ensures
        softmax_value(x)[i] == S::quotient(
            shifted_exponentials(x)[i],
            range_sum(shifted_exponentials(x), 0, x.len()),
        ),
{
    reduced_sum_is_the_sum(shifted_exponentials(x));
}

/// The hyperbolic tangent is a fraction of exponentials.
#[verifier::opaque]
pub open spec fn tangents_are_fractions<S: Scalar>() -> bool {
    forall|x: S| #[trigger]
        S::hyperbolic_tangent(x) == {
            let e = S::exponential(S::product(S::constant_value(Constant::Two), x));
            S::quotient(S::difference(e, one()), S::sum(e, one()))
        }
}

/// In exact arithmetic, the kernel and the reference activate an element alike.
pub proof fn activations_agree<S: Scalar>(x: S)
    requires
        tangents_are_fractions::<S>(),
    ensures
        gelu_value(x) == gelu_of(x),
{
    reveal(tangents_are_fractions);
}

} // verus!
