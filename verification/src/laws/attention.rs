//! Laws of attention.

use vstd::prelude::*;

use crate::agreement::{
    attentions_agree, causal_rows_attend_to_the_past, exact_softmax, inverses_exist,
    lemma_range_max, lemma_sum_factor, one_changes_nothing, quotients_are_products,
};
use crate::exact::{
    counts_are_sums, exact_field, exact_ring, exact_roots, lemma_distribute, lemma_one,
    lemma_over_times, lemma_regroup_product, lemma_swap_last, lemma_zero, squares_undo_roots,
};
use crate::index::lemma_cell;
use crate::kernels::attention::{
    attended, component, exponentials, row, running_max, score, score_row,
};
use crate::kernels::online::{
    counts, exact_exponential, exp_of, exponentials_chain, lemma_attended, lemma_positive,
    lemma_running_max, lemma_scores_count, scores_have_weight, sums_stay_positive, weight_sum,
};
use crate::kernels::reduce::range_sum;
use crate::laws::sums::sums_depend_on_their_elements;
use crate::reference::{
    attention_value, causal_scores, head_output, head_part, range_max, row_exponentials,
    softmax_rows, Shape,
};
use crate::scalar::{above, one, zero, Scalar};
use crate::tensor::dot;

verus! {

/// Where component `d` of the query, key or value (`part` 0, 1 or 2) of head `h` at position
/// `s` stands in the joint projection.
pub open spec fn part_place(shape: Shape, part: int, h: int, s: int, d: int) -> int {
    s * (3 * shape.d_model) + part * shape.d_model + h * shape.d_head + d
}

/// Where component `d` of head `h` at position `s` stands in the result.
pub open spec fn result_place(shape: Shape, h: int, s: int, d: int) -> int {
    s * shape.d_model + (h * shape.d_head + d)
}

/// The scores of position `i` for itself and the positions before it are above that of a
/// masked position.
pub open spec fn past_counts<S: Scalar>(qkv: Seq<S>, seq: nat, shape: Shape, h: int, i: int) -> bool {
    forall|j: int|
        0 <= j <= i ==> counts(
            #[trigger] score(
                head_part(qkv, 0, h, seq, shape),
                head_part(qkv, 1, h, seq, shape),
                0,
                shape.d_head as int,
                true,
                i,
                j,
            ),
        )
}

proof fn lemma_part<S>(qkv: Seq<S>, part: int, h: int, seq: nat, shape: Shape, s: int, d: int)
    requires
        0 <= s < seq,
        0 <= d < shape.d_head,
    ensures
        s * shape.d_head + d < head_part(qkv, part, h, seq, shape).len(),
        head_part(qkv, part, h, seq, shape)[s * shape.d_head + d] == qkv[part_place(
            shape,
            part,
            h,
            s,
            d,
        )],
{
    lemma_cell(s, seq as int, d, shape.d_head as int);
}

/// A row of a head is attention over the positions up to it.
proof fn lemma_head_row<S: Scalar>(qkv: Seq<S>, seq: nat, shape: Shape, h: int, i: int, d: int)
    requires
        exact_ring::<S>(),
        exact_exponential::<S>(),
        exact_softmax::<S>(),
        shape.wf(),
        0 <= h < shape.n_heads,
        0 <= i < seq,
        0 <= d < shape.d_head,
        past_counts(qkv, seq, shape, h, i),
    ensures
        attention_value(qkv, seq, shape)[result_place(shape, h, i, d)] == attended(
            head_part(qkv, 0, h, seq, shape),
            head_part(qkv, 1, h, seq, shape),
            head_part(qkv, 2, h, seq, shape),
            0,
            (i + 1) as nat,
            shape.d_head as int,
            false,
            i,
            d,
        ),
{
    let (dm, dh) = (shape.d_model as int, shape.d_head as int);
    lemma_cell(h, shape.n_heads as int, d, dh);
    lemma_cell(i, seq as int, h * dh + d, dm);
    let q = head_part(qkv, 0, h, seq, shape);
    let k = head_part(qkv, 1, h, seq, shape);
    let v = head_part(qkv, 2, h, seq, shape);
    attentions_agree(q, k, v, seq, dh as nat, i, d);
    causal_rows_attend_to_the_past(q, k, v, 0, seq, dh, i, d);
    assert(attention_value(qkv, seq, shape)[result_place(shape, h, i, d)] == head_output(
        qkv,
        h,
        seq,
        shape,
    )[i * dh + d]);
}

/// In exact arithmetic, what a head gives for a position depends on the head's query at that
/// position and on its keys and values up to it, and on nothing else: not on later positions,
/// not on other heads, not on the queries of other positions, and not on the length of the
/// sequence.
pub proof fn attention_depends_on_the_past<S: Scalar>(
    a: Seq<S>,
    b: Seq<S>,
    seq: nat,
    more: nat,
    shape: Shape,
    h: int,
    i: int,
    d: int,
)
    requires
        exact_ring::<S>(),
        exact_exponential::<S>(),
        exact_softmax::<S>(),
        shape.wf(),
        0 <= h < shape.n_heads,
        0 <= i < seq,
        i < more,
        0 <= d < shape.d_head,
        past_counts(a, seq, shape, h, i),
        past_counts(b, more, shape, h, i),
        forall|c: int|
            0 <= c < shape.d_head ==> #[trigger] a[part_place(shape, 0, h, i, c)] == b[part_place(
                shape,
                0,
                h,
                i,
                c,
            )],
        forall|j: int, c: int|
            0 <= j <= i && 0 <= c < shape.d_head ==> #[trigger] a[part_place(shape, 1, h, j, c)]
                == b[part_place(shape, 1, h, j, c)],
        forall|j: int|
            0 <= j <= i ==> #[trigger] a[part_place(shape, 2, h, j, d)] == b[part_place(
                shape,
                2,
                h,
                j,
                d,
            )],
    ensures
        attention_value(a, seq, shape)[result_place(shape, h, i, d)] == attention_value(
            b,
            more,
            shape,
        )[result_place(shape, h, i, d)],
{
    let dh = shape.d_head as int;
    let n = (i + 1) as nat;
    lemma_head_row(a, seq, shape, h, i, d);
    lemma_head_row(b, more, shape, h, i, d);
    let (qa, qb) = (head_part(a, 0, h, seq, shape), head_part(b, 0, h, more, shape));
    let (ka, kb) = (head_part(a, 1, h, seq, shape), head_part(b, 1, h, more, shape));
    let (va, vb) = (head_part(a, 2, h, seq, shape), head_part(b, 2, h, more, shape));
    assert(row(qa, i * dh, dh) =~= row(qb, i * dh, dh)) by {
        lemma_cell(i, seq as int, 0, dh);
        lemma_cell(i, more as int, 0, dh);
        let (ra, rb) = (row(qa, i * dh, dh), row(qb, i * dh, dh));
        assert forall|c: int| 0 <= c < dh implies #[trigger] ra[c] == rb[c] by {
            lemma_part(a, 0, h, seq, shape, i, c);
            lemma_part(b, 0, h, more, shape, i, c);
            assert(a[part_place(shape, 0, h, i, c)] == b[part_place(shape, 0, h, i, c)]);
        }
    }
    let (sa, sb) = (
        score_row(qa, ka, 0, n, dh, false, i),
        score_row(qb, kb, 0, n, dh, false, i),
    );
    assert forall|j: int| 0 <= j < n implies #[trigger] sa[j] == sb[j] by {
        assert(row(ka, j * dh, dh) =~= row(kb, j * dh, dh)) by {
            lemma_cell(j, seq as int, 0, dh);
            lemma_cell(j, more as int, 0, dh);
            let (ra, rb) = (row(ka, j * dh, dh), row(kb, j * dh, dh));
            assert forall|c: int| 0 <= c < dh implies #[trigger] ra[c] == rb[c] by {
                lemma_part(a, 1, h, seq, shape, j, c);
                lemma_part(b, 1, h, more, shape, j, c);
                assert(a[part_place(shape, 1, h, j, c)] == b[part_place(shape, 1, h, j, c)]);
            }
        }
    }
    assert(sa =~= sb);
    let (ca, cb) = (component(va, 0, dh, d, n), component(vb, 0, dh, d, n));
    assert forall|j: int| 0 <= j < n implies #[trigger] ca[j] == cb[j] by {
        lemma_part(a, 2, h, seq, shape, j, d);
        lemma_part(b, 2, h, more, shape, j, d);
        assert(a[part_place(shape, 2, h, j, d)] == b[part_place(shape, 2, h, j, d)]);
    }
    assert(ca =~= cb);
}

proof fn lemma_dot_constant<S: Scalar>(e: Seq<S>, x: Seq<S>, c: S, n: nat)
    requires
        exact_ring::<S>(),
        forall|j: int| 0 <= j < n ==> #[trigger] x[j] == c,
    ensures
        dot(e, x, n) == S::product(range_sum(e, 0, n), c),
    decreases n,
{
    if n > 0 {
        let m = (n - 1) as nat;
        lemma_dot_constant(e, x, c, m);
        assert(x[n - 1] == c);
        lemma_distribute(range_sum(e, 0, m), e[n - 1], c);
    } else {
        lemma_zero(c);
    }
}

/// In exact arithmetic, attention gives back a value that all positions up to its own share:
/// the weights add up to one.
pub proof fn attention_keeps_common_values<S: Scalar>(
    qkv: Seq<S>,
    seq: nat,
    shape: Shape,
    h: int,
    i: int,
    d: int,
    value: S,
)
    requires
        exact_ring::<S>(),
        exact_exponential::<S>(),
        exact_softmax::<S>(),
        scores_have_weight::<S>(),
        sums_stay_positive::<S>(),
        inverses_exist::<S>(),
        one_changes_nothing::<S>(),
        shape.wf(),
        0 <= h < shape.n_heads,
        0 <= i < seq,
        0 <= d < shape.d_head,
        past_counts(qkv, seq, shape, h, i),
        forall|j: int| 0 <= j <= i ==> #[trigger] qkv[part_place(shape, 2, h, j, d)] == value,
    ensures
        attention_value(qkv, seq, shape)[result_place(shape, h, i, d)] == value,
{
    let dh = shape.d_head as int;
    let n = (i + 1) as nat;
    lemma_head_row(qkv, seq, shape, h, i, d);
    let q = head_part(qkv, 0, h, seq, shape);
    let k = head_part(qkv, 1, h, seq, shape);
    let v = head_part(qkv, 2, h, seq, shape);
    let scores = score_row(q, k, 0, n, dh, false, i);
    let comp = component(v, 0, dh, d, n);
    assert forall|j: int| 0 <= j < n implies #[trigger] comp[j] == value by {
        lemma_part(qkv, 2, h, seq, shape, j, d);
        assert(qkv[part_place(shape, 2, h, j, d)] == value);
    }
    assert forall|j: int| 0 <= j < n implies counts(
        #[trigger] score(q, k, 0, dh, false, i, j),
    ) by {
        assert(counts(score(q, k, 0, dh, true, i, j)));
    }
    lemma_scores_count(q, k, 0, n, dh, false, i);
    let top = running_max(scores, n);
    lemma_running_max(scores, false, i, n);
    lemma_attended(q, k, v, 0, n, dh, false, i, d);
    let e = exponentials(scores, top);
    let total = weight_sum(scores, top, n);
    assert(counts(scores[0])) by {
        assert(scores[0] == score(q, k, 0, dh, false, i, 0));
    }
    lemma_positive(scores, top, n);
    lemma_dot_constant(e, comp, value, n);
    let inv = S::quotient(one(), total);
    lemma_swap_last(total, value, inv);
    reveal(inverses_exist);
    reveal(one_changes_nothing);
}

/// In exact arithmetic, the score of a position for one that it sees, multiplied by the root
/// of the width of a head, is the sum of the products of its query and the other's key.
pub proof fn scores_are_scaled_products<S: Scalar>(
    q: Seq<S>,
    k: Seq<S>,
    seq: nat,
    d_head: nat,
    i: int,
    j: int,
)
    requires
        exact_field::<S>(),
        exact_roots::<S>(),
        d_head > 0,
        0 <= j <= i < seq,
    ensures
        S::product(
            causal_scores(q, k, seq, d_head)[i * seq + j],
            S::root(S::count_value(d_head)),
        ) == dot(
            q.subrange(i * d_head, i * d_head + d_head),
            k.subrange(j * d_head, j * d_head + d_head),
            d_head,
        ),
{
    lemma_cell(i, seq as int, j, seq as int);
    let root = S::root(S::count_value(d_head));
    reveal(counts_are_sums);
    reveal(squares_undo_roots);
    assert(above(S::count_value(d_head), zero::<S>()));
    assert(above(root, zero::<S>()));
    let p = dot(
        q.subrange(i * d_head, i * d_head + d_head),
        k.subrange(j * d_head, j * d_head + d_head),
        d_head,
    );
    lemma_regroup_product(p, S::quotient(one(), root), root);
    lemma_over_times(one(), root);
    lemma_one(p);
}

/// In exact arithmetic, the weights of a row add up to one.
pub proof fn weights_add_up_to_one<S: Scalar>(x: Seq<S>, n: nat, i: int)
    requires
        exact_ring::<S>(),
        quotients_are_products::<S>(),
        inverses_exist::<S>(),
        0 <= i < n,
        above(range_sum(row_exponentials(x, i, n), 0, n), zero::<S>()),
    ensures
        range_sum(softmax_rows(x, n), i * n, n) == one::<S>(),
{
    let e = row_exponentials(x, i, n);
    let total = range_sum(e, 0, n);
    let inv = S::quotient(one(), total);
    let w = Seq::new(n, |j: int| S::product(e[j], inv));
    let soft = softmax_rows(x, n);
    lemma_cell(i, n as int, 0, n as int);
    assert forall|j: int| 0 <= j < n implies #[trigger] soft[i * n + j] == w[0 + j] by {
        lemma_cell(i, n as int, j, n as int);
        reveal(quotients_are_products);
        assert(soft[i * n + j] == S::quotient(e[j], total));
    }
    sums_depend_on_their_elements(soft, w, i * n, 0, n);
    lemma_sum_factor(e, w, inv, n);
    reveal(inverses_exist);
}

/// In exact arithmetic, two weights of a row differ by the exponential of the difference of
/// their scores.
pub proof fn weights_differ_as_their_scores<S: Scalar>(x: Seq<S>, n: nat, i: int, a: int, b: int)
    requires
        exact_ring::<S>(),
        exact_exponential::<S>(),
        exact_softmax::<S>(),
        0 <= i < n,
        0 <= a < n,
        0 <= b < n,
        counts(x[i * n]),
        counts(x[i * n + a]),
    ensures
        S::product(exp_of(x[i * n + b], x[i * n + a]), softmax_rows(x, n)[i * n + a])
            == softmax_rows(x, n)[i * n + b],
{
    lemma_cell(i, n as int, a, n as int);
    lemma_cell(i, n as int, b, n as int);
    let e = row_exponentials(x, i, n);
    let total = range_sum(e, 0, n);
    let inv = S::quotient(one(), total);
    let max = range_max(x, i * n, n);
    lemma_range_max(x, i * n, n);
    reveal(quotients_are_products);
    reveal(exponentials_chain);
    let f = exp_of(x[i * n + b], x[i * n + a]);
    assert(e[a] == exp_of(x[i * n + a], max) && e[b] == exp_of(x[i * n + b], max));
    assert(softmax_rows(x, n)[i * n + a] == S::quotient(e[a], total));
    assert(softmax_rows(x, n)[i * n + b] == S::quotient(e[b], total));
    assert(S::product(f, e[a]) == e[b]);
    lemma_regroup_product(f, e[a], inv);
}

} // verus!
