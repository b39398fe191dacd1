//! Why attention over tiles is attention.
//!
//! The tiled kernel never holds a whole row of scores: it keeps a running maximum, a running
//! sum of weights and a running weighted sum of values, and corrects the two sums whenever
//! the maximum grows. In exact arithmetic the result is that of the plain kernel, which is
//! shown here from the rules of arithmetic that it takes.

use vstd::prelude::*;

use crate::exact::{
    exact_ring, lemma_distribute, lemma_regroup_product, lemma_regroup_sum, lemma_swap_last,
    lemma_zero,
};
use crate::kernels::attention::{
    accumulated, attended, component, exponentials, flash_row, flash_value, fresh_row, masked,
    row, row_updated, running_max, score, score_row, tile_max, tile_scores, tiles_seen,
    weights, RowView,
};
use crate::kernels::reduce::{picked, range_sum};
use crate::scalar::{above, one, zero, Scalar};
use crate::tensor::dot;

verus! {

/// A score that counts: one above that of a masked position.
pub open spec fn counts<S: Scalar>(x: S) -> bool {
    above(x, masked::<S>())
}

/// The exponential of a difference.
pub open spec fn exp_of<S: Scalar>(a: S, b: S) -> S {
    S::exponential(S::difference(a, b))
}

/// Exponentials of differences multiply to that of the whole difference.
#[verifier::opaque]
pub open spec fn exponentials_chain<S: Scalar>() -> bool {
    forall|a: S, b: S, c: S|
        counts(b) && counts(c) ==> #[trigger] S::product(exp_of(a, b), exp_of(b, c)) == exp_of(
            a,
            c,
        )
}

/// The exponential for a masked score is zero.
#[verifier::opaque]
pub open spec fn masked_weighs_nothing<S: Scalar>() -> bool {
    forall|c: S| counts(c) ==> #[trigger] exp_of(masked(), c) == zero::<S>()
}

/// An exponential is zero or above it.
#[verifier::opaque]
pub open spec fn exponentials_are_positive<S: Scalar>() -> bool {
    forall|x: S|
        above(#[trigger] S::exponential(x), zero::<S>()) || S::exponential(x) == zero::<S>()
}

/// An exponential cancels out of a fraction.
#[verifier::opaque]
pub open spec fn exponentials_cancel<S: Scalar>() -> bool {
    forall|x: S, b: S, c: S|
        counts(b) && counts(c) ==> S::product(
            exp_of(b, c),
            #[trigger] S::quotient(one(), S::product(x, exp_of(b, c))),
        ) == S::quotient(one(), x)
}

/// Exponentials turn differences into quotients, are zero for a masked score, and are never
/// below zero.
pub open spec fn exact_exponential<S: Scalar>() -> bool {
    &&& exponentials_chain::<S>()
    &&& masked_weighs_nothing::<S>()
    &&& exponentials_are_positive::<S>()
    &&& exponentials_cancel::<S>()
}

proof fn lemma_chain<S: Scalar>(a: S, b: S, c: S)
    requires
        exact_exponential::<S>(),
        counts(b),
        counts(c),
    ensures
        S::product(exp_of(a, b), exp_of(b, c)) == exp_of(a, c),
{
    reveal(exponentials_chain);
}

/// All scores of a query count, but for those of masked positions.
pub open spec fn scores_count<S: Scalar>(scores: Seq<S>, causal: bool, i: int) -> bool {
    forall|j: int|
        0 <= j < scores.len() ==> if causal && j > i {
            #[trigger] scores[j] == masked::<S>()
        } else {
            counts(scores[j])
        }
}

/// The sum of the weights of the first `n` scores relative to `m`.
pub open spec fn weight_sum<S: Scalar>(scores: Seq<S>, m: S, n: nat) -> S {
    range_sum(exponentials(scores, m), 0, n)
}

/// The weighted sum of the first `n` values relative to `m`.
pub open spec fn value_sum<S: Scalar>(scores: Seq<S>, v: Seq<S>, m: S, n: nat) -> S {
    dot(exponentials(scores, m), v, n)
}

/// A new reference point multiplies the sum of weights by a factor.
pub(crate) proof fn lemma_weight_shift<S: Scalar>(scores: Seq<S>, m: S, m2: S, n: nat)
    requires
        exact_ring::<S>(),
        exact_exponential::<S>(),
        counts(m),
        counts(m2),
        n <= scores.len(),
    ensures
        S::product(weight_sum(scores, m, n), exp_of(m, m2)) == weight_sum(scores, m2, n),
    decreases n,
{
    let f = exp_of(m, m2);
    if n > 0 {
        lemma_weight_shift(scores, m, m2, (n - 1) as nat);
        let before = weight_sum(scores, m, (n - 1) as nat);
        let e = exp_of(scores[n - 1], m);
        assert(exponentials(scores, m)[n - 1] == e);
        assert(exponentials(scores, m2)[n - 1] == exp_of(scores[n - 1], m2));
        assert(weight_sum(scores, m, n) == S::sum(before, e));
        lemma_distribute(before, e, f);
        lemma_chain(scores[n - 1], m, m2);
    } else {
        lemma_zero(f);
    }
}

/// A new reference point multiplies the weighted sum by the same factor.
pub(crate) proof fn lemma_value_shift<S: Scalar>(scores: Seq<S>, v: Seq<S>, m: S, m2: S, n: nat)
    requires
        exact_ring::<S>(),
        exact_exponential::<S>(),
        counts(m),
        counts(m2),
        n <= scores.len(),
    ensures
        S::product(value_sum(scores, v, m, n), exp_of(m, m2)) == value_sum(scores, v, m2, n),
    decreases n,
{
    let f = exp_of(m, m2);
    if n > 0 {
        lemma_value_shift(scores, v, m, m2, (n - 1) as nat);
        let before = value_sum(scores, v, m, (n - 1) as nat);
        let e = exp_of(scores[n - 1], m);
        let x = v[n - 1];
        assert(exponentials(scores, m)[n - 1] == e);
        assert(exponentials(scores, m2)[n - 1] == exp_of(scores[n - 1], m2));
        assert(value_sum(scores, v, m, n) == S::sum(before, S::product(e, x)));
        lemma_distribute(before, S::product(e, x), f);
        lemma_swap_last(e, x, f);
        lemma_chain(scores[n - 1], m, m2);
    } else {
        lemma_zero(f);
    }
}

/// The sum of a stretch is added to the sum of what came before it.
proof fn lemma_weights_join<S: Scalar>(scores: Seq<S>, tile: Seq<S>, m: S, n: nat, k: nat)
    requires
        exact_ring::<S>(),
        k <= tile.len(),
        n + k <= scores.len(),
        forall|c: int| 0 <= c < k ==> #[trigger] tile[c] == scores[n + c],
    ensures
        S::sum(weight_sum(scores, m, n), weight_sum(tile, m, k)) == weight_sum(
            scores,
            m,
            n + k,
        ),
    decreases k,
{
    if k > 0 {
        lemma_weights_join(scores, tile, m, n, (k - 1) as nat);
        let e = exp_of(tile[k - 1], m);
        assert(exponentials(tile, m)[k - 1] == e);
        assert(exponentials(scores, m)[n + k - 1] == e);
        lemma_regroup_sum(weight_sum(scores, m, n), weight_sum(tile, m, (k - 1) as nat), e);
    } else {
        lemma_zero(weight_sum(scores, m, n));
    }
}

/// The weighted sum of a stretch is added to that of what came before it.
proof fn lemma_values_join<S: Scalar>(
    scores: Seq<S>,
    v: Seq<S>,
    tile: Seq<S>,
    tile_v: Seq<S>,
    m: S,
    n: nat,
    k: nat,
)
    requires
        exact_ring::<S>(),
        k <= tile.len(),
        n + k <= scores.len(),
        forall|c: int| 0 <= c < k ==> #[trigger] tile[c] == scores[n + c],
        forall|c: int| 0 <= c < k ==> #[trigger] tile_v[c] == v[n + c],
    ensures
        S::sum(value_sum(scores, v, m, n), value_sum(tile, tile_v, m, k)) == value_sum(
            scores,
            v,
            m,
            n + k,
        ),
    decreases k,
{
    if k > 0 {
        lemma_values_join(scores, v, tile, tile_v, m, n, (k - 1) as nat);
        let term = S::product(exp_of(tile[k - 1], m), tile_v[k - 1]);
        assert(exponentials(tile, m)[k - 1] == exp_of(tile[k - 1], m));
        assert(exponentials(scores, m)[n + k - 1] == exp_of(tile[k - 1], m));
        lemma_regroup_sum(
            value_sum(scores, v, m, n),
            value_sum(tile, tile_v, m, (k - 1) as nat),
            term,
        );
    } else {
        lemma_zero(value_sum(scores, v, m, n));
    }
}

/// Terms without weight add nothing, so that they may be left out.
proof fn lemma_accumulated<S: Scalar>(start: S, scores: Seq<S>, v: Seq<S>, m: S, n: nat)
    requires
        exact_ring::<S>(),
        exact_exponential::<S>(),
        n <= scores.len(),
    ensures
        accumulated(start, exponentials(scores, m), v, n) == S::sum(
            start,
            value_sum(scores, v, m, n),
        ),
    decreases n,
{
    if n > 0 {
        lemma_accumulated(start, scores, v, m, (n - 1) as nat);
        let p = exponentials(scores, m);
        let before = value_sum(scores, v, m, (n - 1) as nat);
        assert(p[n - 1] == S::exponential(S::difference(scores[n - 1], m)));
        let term = S::product(p[n - 1], v[n - 1]);
        lemma_regroup_sum(start, before, term);
        if !above(p[n - 1], zero::<S>()) {
            assert(p[n - 1] == zero::<S>()) by {
                reveal(exponentials_are_positive);
            }
            lemma_zero(v[n - 1]);
            lemma_zero(before);
        }
    } else {
        lemma_zero(start);
    }
}

/// The running maximum of a tile is that of a masked position or counts.
proof fn lemma_tile_max<S: Scalar>(scores: Seq<S>, causal: bool, i: int, start: int, n: nat)
    requires
        n <= scores.len(),
        forall|c: int|
            0 <= c < n && !(causal && start + c > i) ==> counts(#[trigger] scores[c]),
    ensures
        tile_max(scores, causal, i, start, n) == masked::<S>() || counts(
            tile_max(scores, causal, i, start, n),
        ),
        n > 0 && !(causal && start > i) ==> counts(tile_max(scores, causal, i, start, n)),
    decreases n,
{
    if n > 0 {
        lemma_tile_max(scores, causal, i, start, (n - 1) as nat);
        if n == 1 {
            assert(tile_max(scores, causal, i, start, 0) == masked::<S>());
            if !(causal && start > i) {
                assert(counts(scores[0]));
            }
        }
    }
}

/// A running maximum of scores the first of which counts, counts.
pub(crate) proof fn lemma_running_max<S: Scalar>(scores: Seq<S>, causal: bool, i: int, n: nat)
    requires
        scores_count(scores, causal, i),
        0 <= i,
        1 <= n <= scores.len(),
    ensures
        counts(running_max(scores, n)),
    decreases n,
{
    assert(counts(scores[0]));
    if n > 1 {
        lemma_running_max(scores, causal, i, (n - 1) as nat);
        let x = scores[n - 1];
        assert(if causal && n - 1 > i {
            x == masked::<S>()
        } else {
            counts(x)
        });
    }
}

/// What a row holds after some tiles: both sums over the positions seen, relative to a score
/// that counts.
spec fn holds_sums<S: Scalar>(
    state: RowView<S>,
    scores: Seq<S>,
    v: Seq<S>,
    base: int,
    d_head: int,
    n: nat,
) -> bool {
    &&& counts(state.m)
    &&& state.l == weight_sum(scores, state.m, n)
    &&& state.acc.len() == d_head
    &&& forall|d: int|
        0 <= d < d_head ==> #[trigger] state.acc[d] == value_sum(
            scores,
            component(v, base, d_head, d, scores.len()),
            state.m,
            n,
        )
}

/// One tile takes a row from the sums over the positions before it to those over its own
/// positions too.
proof fn lemma_tile_step<S: Scalar>(
    state: RowView<S>,
    scores: Seq<S>,
    tile: Seq<S>,
    v: Seq<S>,
    base: int,
    d_head: int,
    causal: bool,
    i: int,
    start: nat,
)
    requires
        exact_ring::<S>(),
        exact_exponential::<S>(),
        scores_count(scores, causal, i),
        0 <= i,
        0 <= d_head,
        tile.len() > 0,
        start + tile.len() <= scores.len(),
        forall|c: int| 0 <= c < tile.len() ==> #[trigger] tile[c] == scores[start + c],
        if start == 0 {
            state == fresh_row::<S>(d_head as nat)
        } else {
            holds_sums(state, scores, v, base, d_head, start)
        },
    ensures
        holds_sums(
            row_updated(state, tile, v, base, d_head, causal, i, start as int),
            scores,
            v,
            base,
            d_head,
            start + tile.len(),
        ),
{
    let k = tile.len();
    let after = row_updated(state, tile, v, base, d_head, causal, i, start as int);
    let top = tile_max(tile, causal, i, start as int, k);
    assert forall|c: int| 0 <= c < k && !(causal && start + c > i) implies counts(
        #[trigger] tile[c],
    ) by {
        assert(tile[c] == scores[start + c]);
    }
    lemma_tile_max(tile, causal, i, start as int, k);
    let m = picked(state.m, top);
    assert(counts(m));
    let f = exp_of(state.m, m);
    let p = exponentials(tile, m);
    lemma_weights_join(scores, tile, m, start, k);
    assert(range_sum(p, 0, p.len()) == weight_sum(tile, m, k));
    if start == 0 {
        lemma_zero(f);
        assert(weight_sum(scores, m, 0) == zero::<S>());
    } else {
        lemma_weight_shift(scores, state.m, m, start);
    }
    assert(after.l == weight_sum(scores, m, start + k));
    assert forall|d: int| 0 <= d < d_head implies #[trigger] after.acc[d] == value_sum(
        scores,
        component(v, base, d_head, d, scores.len()),
        m,
        start + k,
    ) by {
        let whole = component(v, base, d_head, d, scores.len());
        let part = component(v, base + start * d_head, d_head, d, k);
        assert forall|c: int| 0 <= c < k implies #[trigger] part[c] == whole[start + c] by {
            assert(base + start * d_head + c * d_head + d == base + (start + c) * d_head + d)
                by (nonlinear_arith);
        }
        lemma_accumulated(S::product(state.acc[d], f), tile, part, m, k);
        lemma_values_join(scores, whole, tile, part, m, start, k);
        if start == 0 {
            assert(state.acc[d] == zero::<S>());
            lemma_zero(f);
            assert(value_sum(scores, whole, m, 0) == zero::<S>());
        } else {
            lemma_value_shift(scores, whole, state.m, m, start);
        }
    }
}

/// How many positions `t` tiles hold.
spec fn positions(t: nat, seq_len: int) -> nat {
    if 32 * t <= seq_len {
        32 * t
    } else {
        seq_len as nat
    }
}

proof fn lemma_flash_row<S: Scalar>(
    q: Seq<S>,
    k: Seq<S>,
    v: Seq<S>,
    base: int,
    seq_len: int,
    d_head: int,
    causal: bool,
    i: int,
    t: nat,
)
    requires
        exact_ring::<S>(),
        exact_exponential::<S>(),
        0 <= i < seq_len,
        0 < d_head,
        scores_count(
            score_row(q, k, base, seq_len as nat, d_head, causal, i),
            causal,
            i,
        ),
        1 <= t,
        32 * (t - 1) < seq_len,
    ensures
        holds_sums(
            flash_row(q, k, v, base, seq_len, d_head, causal, i, t),
            score_row(q, k, base, seq_len as nat, d_head, causal, i),
            v,
            base,
            d_head,
            positions(t, seq_len),
        ),
    decreases t,
{
    let scores = score_row(q, k, base, seq_len as nat, d_head, causal, i);
    let start = 32 * (t - 1);
    let tile = tile_scores(q, k, base, seq_len, d_head, causal, i, start);
    let before = flash_row(q, k, v, base, seq_len, d_head, causal, i, (t - 1) as nat);
    if t > 1 {
        lemma_flash_row(q, k, v, base, seq_len, d_head, causal, i, (t - 1) as nat);
    }
    lemma_tile_step(before, scores, tile, v, base, d_head, causal, i, start as nat);
    assert(start + tile.len() == positions(t, seq_len));
}

/// Masked positions have no weight.
pub(crate) proof fn lemma_masked_tail<S: Scalar>(
    scores: Seq<S>,
    v: Seq<S>,
    m: S,
    i: int,
    n: nat,
    all: nat,
)
    requires
        exact_ring::<S>(),
        exact_exponential::<S>(),
        scores_count(scores, true, i),
        counts(m),
        i < n <= all <= scores.len(),
    ensures
        weight_sum(scores, m, n) == weight_sum(scores, m, all),
        value_sum(scores, v, m, n) == value_sum(scores, v, m, all),
    decreases all - n,
{
    if n < all {
        lemma_masked_tail(scores, v, m, i, n, (all - 1) as nat);
        let e = exponentials(scores, m)[all - 1];
        assert(scores[all - 1] == masked::<S>());
        assert(e == exp_of(masked(), m));
        assert(e == zero::<S>()) by {
            reveal(masked_weighs_nothing);
        }
        lemma_zero(v[all - 1]);
        lemma_zero(weight_sum(scores, m, (all - 1) as nat));
        lemma_zero(value_sum(scores, v, m, (all - 1) as nat));
    }
}

/// A factor is taken out of a weighted sum.
pub(crate) proof fn lemma_factor<S: Scalar>(e: Seq<S>, w: Seq<S>, v: Seq<S>, inv: S, n: nat)
    requires
        exact_ring::<S>(),
        n <= e.len(),
        w == Seq::new(e.len(), |j: int| S::product(e[j], inv)),
    ensures
        dot(w, v, n) == S::product(dot(e, v, n), inv),
    decreases n,
{
    if n > 0 {
        lemma_factor(e, w, v, inv, (n - 1) as nat);
        let (a, b) = (e[n - 1], v[n - 1]);
        let before = dot(e, v, (n - 1) as nat);
        assert(w[n - 1] == S::product(a, inv));
        lemma_distribute(before, S::product(a, b), inv);
        lemma_swap_last(a, b, inv);
    } else {
        lemma_zero(inv);
    }
}

/// The exponential of a difference of scores is above zero.
#[verifier::opaque]
pub open spec fn scores_have_weight<S: Scalar>() -> bool {
    forall|a: S, b: S| counts(a) && counts(b) ==> above(#[trigger] exp_of(a, b), zero::<S>())
}

/// A sum of a number above zero and one that is not below it is above zero.
#[verifier::opaque]
pub open spec fn sums_stay_positive<S: Scalar>() -> bool {
    forall|a: S, b: S|
        (above(a, zero::<S>()) && (above(b, zero::<S>()) || b == zero::<S>())) || (above(
            b,
            zero::<S>(),
        ) && a == zero::<S>()) ==> above(#[trigger] S::sum(a, b), zero::<S>())
}

/// Weights add up to something as soon as one score counts.
pub(crate) proof fn lemma_positive<S: Scalar>(scores: Seq<S>, m: S, n: nat)
    requires
        exact_exponential::<S>(),
        scores_have_weight::<S>(),
        sums_stay_positive::<S>(),
        1 <= n <= scores.len(),
        counts(scores[0]),
        counts(m),
    ensures
        above(weight_sum(scores, m, n), zero::<S>()),
    decreases n,
{
    reveal(sums_stay_positive);
    let e = exponentials(scores, m);
    if n == 1 {
        reveal(scores_have_weight);
        assert(e[0] == exp_of(scores[0], m));
        assert(weight_sum(scores, m, 0) == zero::<S>());
    } else {
        lemma_positive(scores, m, (n - 1) as nat);
        reveal(exponentials_are_positive);
        assert(e[n - 1] == S::exponential(S::difference(scores[n - 1], m)));
    }
}

/// Every row of the tiled kernel ends with weights that add up to something.
pub(crate) proof fn lemma_row_positive<S: Scalar>(
    q: Seq<S>,
    k: Seq<S>,
    v: Seq<S>,
    base: int,
    seq_len: int,
    d_head: int,
    causal: bool,
    i: int,
    t: nat,
)
    requires
        exact_ring::<S>(),
        exact_exponential::<S>(),
        scores_have_weight::<S>(),
        sums_stay_positive::<S>(),
        0 <= i < seq_len,
        0 < d_head,
        1 <= t,
        32 * (t - 1) < seq_len,
        forall|j: int|
            0 <= j < seq_len && !(causal && j > i) ==> counts(
                #[trigger] score(q, k, base, d_head, causal, i, j),
            ),
    ensures
        above(flash_row(q, k, v, base, seq_len, d_head, causal, i, t).l, zero::<S>()),
{
    let scores = score_row(q, k, base, seq_len as nat, d_head, causal, i);
    lemma_scores_count(q, k, base, seq_len as nat, d_head, causal, i);
    lemma_flash_row(q, k, v, base, seq_len, d_head, causal, i, t);
    assert(counts(scores[0]));
    lemma_positive(
        scores,
        flash_row(q, k, v, base, seq_len, d_head, causal, i, t).m,
        positions(t, seq_len),
    );
}

/// The scores of a row count where they are not masked.
pub(crate) proof fn lemma_scores_count<S: Scalar>(
    q: Seq<S>,
    k: Seq<S>,
    base: int,
    seq_len: nat,
    d_head: int,
    causal: bool,
    i: int,
)
    requires
        forall|j: int|
            0 <= j < seq_len && !(causal && j > i) ==> counts(
                #[trigger] score(q, k, base, d_head, causal, i, j),
            ),
    ensures
        scores_count(score_row(q, k, base, seq_len, d_head, causal, i), causal, i),
{
    let scores = score_row(q, k, base, seq_len, d_head, causal, i);
    assert forall|j: int| 0 <= j < scores.len() implies if causal && j > i {
        #[trigger] scores[j] == masked::<S>()
    } else {
        counts(scores[j])
    } by {
        assert(scores[j] == score(q, k, base, d_head, causal, i, j));
    }
}

/// A fraction of the two sums does not depend on the score that they are relative to.
pub(crate) proof fn lemma_fraction<S: Scalar>(scores: Seq<S>, v: Seq<S>, m: S, m2: S, n: nat)
    requires
        exact_ring::<S>(),
        exact_exponential::<S>(),
        counts(m),
        counts(m2),
        n <= scores.len(),
    ensures
        S::product(
            value_sum(scores, v, m, n),
            S::quotient(one(), weight_sum(scores, m, n)),
        ) == S::product(
            value_sum(scores, v, m2, n),
            S::quotient(one(), weight_sum(scores, m2, n)),
        ),
{
    lemma_weight_shift(scores, m, m2, n);
    lemma_value_shift(scores, v, m, m2, n);
    let f = exp_of(m, m2);
    let num = value_sum(scores, v, m, n);
    let sum = weight_sum(scores, m, n);
    let rest = S::quotient(one(), S::product(sum, f));
    assert(S::product(f, rest) == S::quotient(one(), sum)) by {
        reveal(exponentials_cancel);
    }
    lemma_regroup_product(num, f, rest);
}

/// The attention of a row is the fraction of the two sums.
pub(crate) proof fn lemma_attended<S: Scalar>(
    q: Seq<S>,
    k: Seq<S>,
    v: Seq<S>,
    base: int,
    seq_len: nat,
    d_head: int,
    causal: bool,
    i: int,
    d: int,
)
    requires
        exact_ring::<S>(),
    ensures
        ({
            let scores = score_row(q, k, base, seq_len, d_head, causal, i);
            let top = running_max(scores, seq_len);
            attended(q, k, v, base, seq_len, d_head, causal, i, d) == S::product(
                value_sum(scores, component(v, base, d_head, d, seq_len), top, seq_len),
                S::quotient(one(), weight_sum(scores, top, seq_len)),
            )
        }),
{
    let scores = score_row(q, k, base, seq_len, d_head, causal, i);
    let e = exponentials(scores, running_max(scores, seq_len));
    let inv = S::quotient(one(), range_sum(e, 0, e.len()));
    lemma_factor(e, weights(scores), component(v, base, d_head, d, seq_len), inv, seq_len);
}

/// In exact arithmetic, attention over tiles is attention: whatever the queries, keys and
/// values, as long as every score that is not masked is above that of a masked position.
pub proof fn tiled_attention_is_attention<S: Scalar>(
    q: Seq<S>,
    k: Seq<S>,
    v: Seq<S>,
    base: int,
    seq_len: int,
    d_head: int,
    causal: bool,
    q_tile: int,
    i: int,
    d: int,
)
    requires
        exact_ring::<S>(),
        exact_exponential::<S>(),
        0 < d_head,
        0 <= q_tile,
        32 * q_tile <= i < 32 * q_tile + 32,
        i < seq_len,
        0 <= d < d_head,
        forall|j: int|
            0 <= j < seq_len && !(causal && j > i) ==> counts(
                #[trigger] score(q, k, base, d_head, causal, i, j),
            ),
    ensures
        flash_value(
            flash_row(
                q,
                k,
                v,
                base,
                seq_len,
                d_head,
                causal,
                i,
                tiles_seen(q_tile, seq_len, causal),
            ),
            d,
        ) == attended(q, k, v, base, seq_len as nat, d_head, causal, i, d),
{
    let scores = score_row(q, k, base, seq_len as nat, d_head, causal, i);
    let t = tiles_seen(q_tile, seq_len, causal);
    let n = positions(t, seq_len);
    let state = flash_row(q, k, v, base, seq_len, d_head, causal, i, t);
    let vd = component(v, base, d_head, d, seq_len as nat);
    let all = seq_len as nat;
    lemma_scores_count(q, k, base, all, d_head, causal, i);
    lemma_flash_row(q, k, v, base, seq_len, d_head, causal, i, t);
    let m = state.m;
    if n < all {
        lemma_masked_tail(scores, vd, m, i, n, all);
    }
    assert(state.l == weight_sum(scores, m, all));
    assert(state.acc[d] == value_sum(scores, vd, m, all));
    let top = running_max(scores, all);
    lemma_running_max(scores, causal, i, all);
    lemma_fraction(scores, vd, top, m, all);
    lemma_attended(q, k, v, base, all, d_head, causal, i, d);
}

/// With the causal mask, the weighted sum of a tile takes in no value of a masked position.
proof fn lemma_same_sum<S: Scalar>(
    start: S,
    scores: Seq<S>,
    v1: Seq<S>,
    v2: Seq<S>,
    m: S,
    i: int,
    first: int,
    n: nat,
)
    requires
        masked_weighs_nothing::<S>(),
        counts(m),
        n <= scores.len(),
        forall|c: int| 0 <= c < n && first + c > i ==> #[trigger] scores[c] == masked::<S>(),
        forall|c: int| 0 <= c < n && first + c <= i ==> #[trigger] v1[c] == v2[c],
    ensures
        accumulated(start, exponentials(scores, m), v1, n) == accumulated(
            start,
            exponentials(scores, m),
            v2,
            n,
        ),
    decreases n,
{
    if n > 0 {
        lemma_same_sum(start, scores, v1, v2, m, i, first, (n - 1) as nat);
        let p = exponentials(scores, m)[n - 1];
        assert(p == exp_of(scores[n - 1], m));
        if first + n - 1 > i {
            assert(scores[n - 1] == masked::<S>());
            assert(p == zero::<S>()) by {
                reveal(masked_weighs_nothing);
            }
        }
    }
}

proof fn lemma_same_row<S: Scalar>(
    q: Seq<S>,
    k1: Seq<S>,
    v1: Seq<S>,
    k2: Seq<S>,
    v2: Seq<S>,
    base: int,
    seq_len: int,
    d_head: int,
    i: int,
    t: nat,
)
    requires
        masked_weighs_nothing::<S>(),
        0 <= base,
        0 < d_head,
        0 <= i < seq_len,
        base + seq_len * d_head <= k1.len(),
        base + seq_len * d_head <= k2.len(),
        forall|x: int| base <= x < base + (i + 1) * d_head ==> #[trigger] k1[x] == k2[x],
        forall|x: int| base <= x < base + (i + 1) * d_head ==> #[trigger] v1[x] == v2[x],
        forall|j: int| 0 <= j <= i ==> counts(#[trigger] score(q, k1, base, d_head, true, i, j)),
        t > 0 ==> 32 * (t - 1) < seq_len,
    ensures
        flash_row(q, k1, v1, base, seq_len, d_head, true, i, t) == flash_row(
            q,
            k2,
            v2,
            base,
            seq_len,
            d_head,
            true,
            i,
            t,
        ),
        t > 0 ==> counts(flash_row(q, k1, v1, base, seq_len, d_head, true, i, t).m),
    decreases t,
{
    if t > 0 {
        lemma_same_row(q, k1, v1, k2, v2, base, seq_len, d_head, i, (t - 1) as nat);
        let start = 32 * (t - 1);
        let s1 = tile_scores(q, k1, base, seq_len, d_head, true, i, start);
        let s2 = tile_scores(q, k2, base, seq_len, d_head, true, i, start);
        assert forall|c: int| 0 <= c < s1.len() implies s1[c] == s2[c] by {
            let j = start + c;
            if j <= i {
                assert(0 <= j * d_head && j * d_head + d_head <= (i + 1) * d_head && (i + 1) * d_head
                    <= seq_len * d_head) by (nonlinear_arith)
                    requires
                        0 <= j <= i,
                        i < seq_len,
                        0 < d_head,
                ;
                assert(row(k1, base + j * d_head, d_head) =~= row(k2, base + j * d_head, d_head));
            }
        }
        assert(s1 =~= s2);
        let state = flash_row(q, k1, v1, base, seq_len, d_head, true, i, (t - 1) as nat);
        assert forall|c: int| 0 <= c < s1.len() && !(true && start + c > i) implies counts(
            #[trigger] s1[c],
        ) by {
            assert(s1[c] == score(q, k1, base, d_head, true, i, start + c));
        }
        lemma_tile_max(s1, true, i, start, s1.len());
        let m = picked(state.m, tile_max(s1, true, i, start, s1.len()));
        assert(counts(m));
        let r1 = row_updated(state, s1, v1, base, d_head, true, i, start);
        let r2 = row_updated(state, s2, v2, base, d_head, true, i, start);
        assert forall|d: int| 0 <= d < d_head implies r1.acc[d] == r2.acc[d] by {
            let c1 = component(v1, base + start * d_head, d_head, d, s1.len());
            let c2 = component(v2, base + start * d_head, d_head, d, s1.len());
            assert forall|c: int| 0 <= c < s1.len() && start + c <= i implies #[trigger] c1[c]
                == c2[c] by {
                let j = start + c;
                assert(0 <= j * d_head && j * d_head + d_head <= (i + 1) * d_head && start * d_head
                    + c * d_head == j * d_head) by (nonlinear_arith)
                    requires
                        0 <= j <= i,
                        0 < d_head,
                        j == start + c,
                ;
            }
            lemma_same_sum(
                S::product(state.acc[d], exp_of(state.m, m)),
                s1,
                c1,
                c2,
                m,
                i,
                start,
                s1.len(),
            );
        }
        assert(r1.acc =~= r2.acc);
    }
}

/// With the causal mask, a row of the tiled kernel depends on no key and no value of a later
/// row: two sequences that agree up to the row give it the same result. This takes no exact
/// sums, only that the exponential for a masked score is zero.
pub proof fn causal_rows_hide_the_future<S: Scalar>(
    q: Seq<S>,
    k1: Seq<S>,
    v1: Seq<S>,
    k2: Seq<S>,
    v2: Seq<S>,
    base: int,
    seq_len: int,
    d_head: int,
    q_tile: int,
    i: int,
)
    requires
        masked_weighs_nothing::<S>(),
        0 <= base,
        0 < d_head,
        0 <= q_tile,
        0 <= i < seq_len,
        base + seq_len * d_head <= k1.len(),
        base + seq_len * d_head <= k2.len(),
        forall|x: int| base <= x < base + (i + 1) * d_head ==> #[trigger] k1[x] == k2[x],
        forall|x: int| base <= x < base + (i + 1) * d_head ==> #[trigger] v1[x] == v2[x],
        forall|j: int| 0 <= j <= i ==> counts(#[trigger] score(q, k1, base, d_head, true, i, j)),
    ensures
        ({
            let t = tiles_seen(q_tile, seq_len, true);
            flash_row(q, k1, v1, base, seq_len, d_head, true, i, t) == flash_row(
                q,
                k2,
                v2,
                base,
                seq_len,
                d_head,
                true,
                i,
                t,
            )
        }),
{
    lemma_same_row(
        q,
        k1,
        v1,
        k2,
        v2,
        base,
        seq_len,
        d_head,
        i,
        tiles_seen(q_tile, seq_len, true),
    );
}

} // verus!
