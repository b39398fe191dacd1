//! Laws of the forward pass.

use vstd::prelude::*;

use crate::agreement::{exact_softmax, inverses_exist, one_changes_nothing};
use crate::exact::{
    exact_field, exact_ring, lemma_distribute, lemma_regroup_product, lemma_zero,
};
use crate::index::{lemma_cell, lemma_place};
use crate::inference::execution::{exact, products_count};
use crate::kernels::online::{exact_exponential, scores_have_weight, sums_stay_positive};
use crate::laws::attention::{
    attention_depends_on_the_past, attention_keeps_common_values, part_place, past_counts,
    result_place,
};
use crate::laws::matrices::{
    biases_belong_to_columns, embeddings_depend_on_their_token, factors_move_through_products,
    has_row, products_depend_on_row_and_column, products_with_zeros, same_row,
};
use crate::laws::normalization::{
    normalized_elements_depend_on_their_row, scale_and_shift_come_last,
};
use crate::laws::sums::dot_depends_on_its_elements;
use crate::reference::{
    activated, added, attention_branch, attention_value, biased, cleared, column,
    embedded_tokens, feed_forward_branch, forward_value, layer_value, layers_value, matmul_value,
    middle_value, normalized_rows, row_inv_std, row_mean, LayerWeights, Shape,
};
use crate::scalar::{one, zero, Scalar};
use crate::tensor::dot;

verus! {

/// What the attention half adds depends on the hidden state and on the first normalization,
/// the joint projection and the projection behind attention, and on no other weight.
pub proof fn attention_half_uses_its_own_weights<S: Scalar>(
    hidden: Seq<S>,
    v: LayerWeights<S>,
    w: LayerWeights<S>,
    shape: Shape,
    seq: nat,
    eps: S,
)
    requires
        v.ln_1_weight@ == w.ln_1_weight@,
        v.ln_1_bias@ == w.ln_1_bias@,
        v.c_attn_weight@ == w.c_attn_weight@,
        v.c_attn_bias@ == w.c_attn_bias@,
        v.c_proj_weight@ == w.c_proj_weight@,
        v.c_proj_bias@ == w.c_proj_bias@,
    ensures
        attention_branch(hidden, v, shape, seq, eps) == attention_branch(
            hidden,
            w,
            shape,
            seq,
            eps,
        ),
{
}

/// What the feed-forward half adds depends on the hidden state and on the second
/// normalization and the two projections behind it, and on no other weight.
pub proof fn feed_forward_half_uses_its_own_weights<S: Scalar>(
    hidden: Seq<S>,
    v: LayerWeights<S>,
    w: LayerWeights<S>,
    shape: Shape,
    seq: nat,
    eps: S,
)
    requires
        v.ln_2_weight@ == w.ln_2_weight@,
        v.ln_2_bias@ == w.ln_2_bias@,
        v.mlp_fc_weight@ == w.mlp_fc_weight@,
        v.mlp_fc_bias@ == w.mlp_fc_bias@,
        v.mlp_proj_weight@ == w.mlp_proj_weight@,
        v.mlp_proj_bias@ == w.mlp_proj_bias@,
    ensures
        feed_forward_branch(hidden, v, shape, seq, eps) == feed_forward_branch(
            hidden,
            w,
            shape,
            seq,
            eps,
        ),
{
}

/// Every element of `a` is that of `b` times the factor of its place.
pub open spec fn scaled_by<S: Scalar>(a: Seq<S>, b: Seq<S>, f: Seq<S>, n: nat) -> bool {
    forall|p: int| 0 <= p < n ==> #[trigger] a[p] == S::product(b[p], f[p])
}

/// Every row of `a` is that of `b` times the factor of the row.
pub open spec fn rows_scaled_by<S: Scalar>(
    a: Seq<S>,
    b: Seq<S>,
    f: Seq<S>,
    rows: nat,
    cols: nat,
) -> bool {
    forall|p: int, j: int|
        0 <= p < rows && 0 <= j < cols ==> #[trigger] a[p * cols + j] == S::product(
            f[p],
            b[p * cols + j],
        )
}

/// Factors of a normalization's scale and shift may be moved into the product behind it.
proof fn lemma_norm_then_product<S: Scalar>(
    x: Seq<S>,
    gamma: Seq<S>,
    beta: Seq<S>,
    scaled_gamma: Seq<S>,
    scaled_beta: Seq<S>,
    w: Seq<S>,
    scaled_w: Seq<S>,
    f: Seq<S>,
    seq: nat,
    dim: nat,
    n: nat,
    eps: S,
)
    requires
        exact_ring::<S>(),
        dim > 0,
        x.len() == seq * dim,
        scaled_by(scaled_gamma, gamma, f, dim),
        scaled_by(scaled_beta, beta, f, dim),
        rows_scaled_by(scaled_w, w, f, dim, n),
    ensures
        matmul_value(normalized_rows(x, scaled_gamma, scaled_beta, dim, eps), w, seq, dim, n)
            == matmul_value(normalized_rows(x, gamma, beta, dim, eps), scaled_w, seq, dim, n),
{
    let plain = normalized_rows(x, gamma, beta, dim, eps);
    let scaled = normalized_rows(x, scaled_gamma, scaled_beta, dim, eps);
    assert forall|r: int, p: int| 0 <= r < seq && 0 <= p < dim implies #[trigger] scaled[r * dim + p]
        == S::product(plain[r * dim + p], f[p]) by {
        lemma_cell(r, seq as int, p, dim as int);
        assert(scaled_gamma[p] == S::product(gamma[p], f[p]));
        assert(scaled_beta[p] == S::product(beta[p], f[p]));
        let c = S::product(
            S::difference(x[r * dim + p], row_mean(x, r, dim)),
            row_inv_std(x, r, dim, eps),
        );
        lemma_regroup_product(c, gamma[p], f[p]);
        lemma_distribute(S::product(c, gamma[p]), beta[p], f[p]);
    }
    factors_move_through_products(plain, scaled, w, scaled_w, f, seq, dim, n);
}

/// In exact arithmetic, factors of the first normalization's scale and shift may be moved into
/// the rows of the joint projection: it is the first normalization whose result is projected.
pub proof fn first_normalization_feeds_attention<S: Scalar>(
    hidden: Seq<S>,
    v: LayerWeights<S>,
    w: LayerWeights<S>,
    f: Seq<S>,
    shape: Shape,
    seq: nat,
    eps: S,
)
    requires
        exact_ring::<S>(),
        shape.wf(),
        hidden.len() == seq * shape.d_model,
        scaled_by(v.ln_1_weight@, w.ln_1_weight@, f, shape.d_model as nat),
        scaled_by(v.ln_1_bias@, w.ln_1_bias@, f, shape.d_model as nat),
        rows_scaled_by(
            w.c_attn_weight@,
            v.c_attn_weight@,
            f,
            shape.d_model as nat,
            3 * shape.d_model as nat,
        ),
        v.c_attn_bias@ == w.c_attn_bias@,
        v.c_proj_weight@ == w.c_proj_weight@,
        v.c_proj_bias@ == w.c_proj_bias@,
    ensures
        attention_branch(hidden, v, shape, seq, eps) == attention_branch(
            hidden,
            w,
            shape,
            seq,
            eps,
        ),
{
    let dm = shape.d_model as nat;
    lemma_norm_then_product(
        hidden,
        w.ln_1_weight@,
        w.ln_1_bias@,
        v.ln_1_weight@,
        v.ln_1_bias@,
        v.c_attn_weight@,
        w.c_attn_weight@,
        f,
        seq,
        dm,
        3 * dm,
        eps,
    );
}

/// In exact arithmetic, factors of the second normalization's scale and shift may be moved
/// into the rows of the projection up: it is the second normalization whose result is
/// projected.
pub proof fn second_normalization_feeds_the_feed_forward_half<S: Scalar>(
    hidden: Seq<S>,
    v: LayerWeights<S>,
    w: LayerWeights<S>,
    f: Seq<S>,
    shape: Shape,
    seq: nat,
    eps: S,
)
    requires
        exact_ring::<S>(),
        shape.wf(),
        hidden.len() == seq * shape.d_model,
        scaled_by(v.ln_2_weight@, w.ln_2_weight@, f, shape.d_model as nat),
        scaled_by(v.ln_2_bias@, w.ln_2_bias@, f, shape.d_model as nat),
        rows_scaled_by(
            w.mlp_fc_weight@,
            v.mlp_fc_weight@,
            f,
            shape.d_model as nat,
            shape.d_ffn as nat,
        ),
        v.mlp_fc_bias@ == w.mlp_fc_bias@,
        v.mlp_proj_weight@ == w.mlp_proj_weight@,
        v.mlp_proj_bias@ == w.mlp_proj_bias@,
    ensures
        feed_forward_branch(hidden, v, shape, seq, eps) == feed_forward_branch(
            hidden,
            w,
            shape,
            seq,
            eps,
        ),
{
    let dm = shape.d_model as nat;
    lemma_norm_then_product(
        hidden,
        w.ln_2_weight@,
        w.ln_2_bias@,
        v.ln_2_weight@,
        v.ln_2_bias@,
        v.mlp_fc_weight@,
        w.mlp_fc_weight@,
        f,
        seq,
        dm,
        shape.d_ffn as nat,
        eps,
    );
}

/// All elements are zero.
pub open spec fn all_zero<S: Scalar>(x: Seq<S>) -> bool {
    forall|i: int| 0 <= i < x.len() ==> #[trigger] x[i] == zero::<S>()
}

/// In exact arithmetic, the attention half adds the projection's bias to every row if the
/// projection is zero.
pub proof fn attention_half_ends_with_its_projection<S: Scalar>(
    hidden: Seq<S>,
    w: LayerWeights<S>,
    shape: Shape,
    seq: nat,
    eps: S,
    r: int,
    c: int,
)
    requires
        exact_ring::<S>(),
        w.wf(shape),
        all_zero(w.c_proj_weight@),
        0 <= r < seq,
        0 <= c < shape.d_model,
    ensures
        attention_branch(hidden, w, shape, seq, eps).len() == seq * shape.d_model,
        attention_branch(hidden, w, shape, seq, eps)[r * shape.d_model + c] == w.c_proj_bias@[c],
{
    let dm = shape.d_model as nat;
    let ln = normalized_rows(hidden, w.ln_1_weight@, w.ln_1_bias@, dm, eps);
    let qkv = biased(
        matmul_value(ln, w.c_attn_weight@, seq, dm, 3 * dm),
        w.c_attn_bias@,
        3 * dm as int,
    );
    lemma_last_product(
        attention_value(qkv, seq, shape),
        w.c_proj_weight@,
        w.c_proj_bias@,
        seq,
        dm,
        dm,
        r,
        c,
    );
}

proof fn lemma_last_product<S: Scalar>(
    x: Seq<S>,
    w: Seq<S>,
    bias: Seq<S>,
    seq: nat,
    k: nat,
    n: nat,
    r: int,
    c: int,
)
    requires
        exact_ring::<S>(),
        w.len() == k * n,
        all_zero(w),
        0 <= r < seq,
        0 <= c < n,
    ensures
        biased(matmul_value(x, w, seq, k, n), bias, n as int).len() == seq * n,
        biased(matmul_value(x, w, seq, k, n), bias, n as int)[r * n + c] == bias[c],
{
    lemma_cell(r, seq as int, c, n as int);
    products_with_zeros(x, w, seq, k, n, r * n + c);
    lemma_zero(bias[c]);
}

/// In exact arithmetic, the feed-forward half adds the bias of the projection down to every row
/// if that projection is zero.
pub proof fn feed_forward_half_ends_with_its_projection<S: Scalar>(
    hidden: Seq<S>,
    w: LayerWeights<S>,
    shape: Shape,
    seq: nat,
    eps: S,
    r: int,
    c: int,
)
    requires
        exact_ring::<S>(),
        w.wf(shape),
        all_zero(w.mlp_proj_weight@),
        0 <= r < seq,
        0 <= c < shape.d_model,
    ensures
        feed_forward_branch(hidden, w, shape, seq, eps).len() == seq * shape.d_model,
        feed_forward_branch(hidden, w, shape, seq, eps)[r * shape.d_model + c]
            == w.mlp_proj_bias@[c],
{
    let dm = shape.d_model as nat;
    let df = shape.d_ffn as nat;
    let ln = normalized_rows(hidden, w.ln_2_weight@, w.ln_2_bias@, dm, eps);
    let up = biased(matmul_value(ln, w.mlp_fc_weight@, seq, dm, df), w.mlp_fc_bias@, df as int);
    lemma_last_product(
        activated(up),
        w.mlp_proj_weight@,
        w.mlp_proj_bias@,
        seq,
        df,
        dm,
        r,
        c,
    );
}

proof fn lemma_added_nothing<S: Scalar>(x: Seq<S>, branch: Seq<S>, rows: int, seq: nat, dim: nat)
    requires
        exact_ring::<S>(),
        x.len() == seq * dim,
        forall|r: int, c: int|
            0 <= r < seq && 0 <= c < dim ==> #[trigger] branch[r * dim + c] == zero::<S>(),
    ensures
        cleared(added(x, branch), rows, dim as int) == cleared(x, rows, dim as int),
{
    let (a, b) = (cleared(added(x, branch), rows, dim as int), cleared(x, rows, dim as int));
    assert forall|i: int| 0 <= i < x.len() implies #[trigger] a[i] == b[i] by {
        lemma_place(i, seq as int, dim as int);
        let (r, c) = (i / dim as int, i % dim as int);
        assert(branch[r * dim + c] == zero::<S>());
        lemma_zero(x[i]);
    }
    assert(a =~= b);
}

/// In exact arithmetic, a layer whose last projections are zero leaves the rows of the tokens
/// as they are: its halves only add to them.
pub proof fn layers_add_to_their_input<S: Scalar>(
    hidden: Seq<S>,
    w: LayerWeights<S>,
    shape: Shape,
    seq: nat,
    rows: int,
    eps: S,
)
    requires
        exact_ring::<S>(),
        shape.wf(),
        w.wf(shape),
        hidden.len() == seq * shape.d_model,
        all_zero(w.c_proj_weight@),
        all_zero(w.c_proj_bias@),
        all_zero(w.mlp_proj_weight@),
        all_zero(w.mlp_proj_bias@),
    ensures
        layer_value(hidden, w, shape, seq, rows, eps) == cleared(
            hidden,
            rows,
            shape.d_model as int,
        ),
{
    let dm = shape.d_model as nat;
    lemma_silent_attention(hidden, w, shape, seq, rows, eps);
    let mid = middle_value(hidden, w, shape, seq, rows, eps);
    lemma_silent_feed_forward(mid, w, shape, seq, rows, eps);
    assert(cleared(mid, rows, dm as int) =~= mid);
}

proof fn lemma_silent_attention<S: Scalar>(
    hidden: Seq<S>,
    w: LayerWeights<S>,
    shape: Shape,
    seq: nat,
    rows: int,
    eps: S,
)
    requires
        exact_ring::<S>(),
        w.wf(shape),
        hidden.len() == seq * shape.d_model,
        all_zero(w.c_proj_weight@),
        all_zero(w.c_proj_bias@),
    ensures
        middle_value(hidden, w, shape, seq, rows, eps) == cleared(
            hidden,
            rows,
            shape.d_model as int,
        ),
{
    let dm = shape.d_model as nat;
    let branch = attention_branch(hidden, w, shape, seq, eps);
    assert forall|r: int, c: int| 0 <= r < seq && 0 <= c < dm implies #[trigger] branch[r * dm + c]
        == zero::<S>() by {
        attention_half_ends_with_its_projection(hidden, w, shape, seq, eps, r, c);
        assert(w.c_proj_bias@[c] == zero::<S>());
    }
    lemma_added_nothing(hidden, branch, rows, seq, dm);
}

proof fn lemma_silent_feed_forward<S: Scalar>(
    hidden: Seq<S>,
    w: LayerWeights<S>,
    shape: Shape,
    seq: nat,
    rows: int,
    eps: S,
)
    requires
        exact_ring::<S>(),
        w.wf(shape),
        hidden.len() == seq * shape.d_model,
        all_zero(w.mlp_proj_weight@),
        all_zero(w.mlp_proj_bias@),
    ensures
        cleared(
            added(hidden, feed_forward_branch(hidden, w, shape, seq, eps)),
            rows,
            shape.d_model as int,
        ) == cleared(hidden, rows, shape.d_model as int),
{
    let dm = shape.d_model as nat;
    let branch = feed_forward_branch(hidden, w, shape, seq, eps);
    assert forall|r: int, c: int| 0 <= r < seq && 0 <= c < dm implies #[trigger] branch[r * dm + c]
        == zero::<S>() by {
        feed_forward_half_ends_with_its_projection(hidden, w, shape, seq, eps, r, c);
        assert(w.mlp_proj_bias@[c] == zero::<S>());
    }
    lemma_added_nothing(hidden, branch, rows, seq, dm);
}

/// In exact arithmetic, a layer is its attention half and then its feed-forward half: running
/// the layer is running it once with the feed-forward half silent, and once more, on what came
/// out, with the attention half silent.
pub proof fn layers_run_one_half_after_the_other<S: Scalar>(
    hidden: Seq<S>,
    w: LayerWeights<S>,
    first: LayerWeights<S>,
    second: LayerWeights<S>,
    shape: Shape,
    seq: nat,
    rows: int,
    eps: S,
)
    requires
        exact_ring::<S>(),
        shape.wf(),
        first.wf(shape),
        second.wf(shape),
        hidden.len() == seq * shape.d_model,
        first.ln_1_weight@ == w.ln_1_weight@,
        first.ln_1_bias@ == w.ln_1_bias@,
        first.c_attn_weight@ == w.c_attn_weight@,
        first.c_attn_bias@ == w.c_attn_bias@,
        first.c_proj_weight@ == w.c_proj_weight@,
        first.c_proj_bias@ == w.c_proj_bias@,
        all_zero(first.mlp_proj_weight@),
        all_zero(first.mlp_proj_bias@),
        second.ln_2_weight@ == w.ln_2_weight@,
        second.ln_2_bias@ == w.ln_2_bias@,
        second.mlp_fc_weight@ == w.mlp_fc_weight@,
        second.mlp_fc_bias@ == w.mlp_fc_bias@,
        second.mlp_proj_weight@ == w.mlp_proj_weight@,
        second.mlp_proj_bias@ == w.mlp_proj_bias@,
        all_zero(second.c_proj_weight@),
        all_zero(second.c_proj_bias@),
    ensures
        layer_value(hidden, w, shape, seq, rows, eps) == layer_value(
            layer_value(hidden, first, shape, seq, rows, eps),
            second,
            shape,
            seq,
            rows,
            eps,
        ),
{
    let dm = shape.d_model as int;
    attention_half_uses_its_own_weights(hidden, first, w, shape, seq, eps);
    let mid = middle_value(hidden, w, shape, seq, rows, eps);
    assert(middle_value(hidden, first, shape, seq, rows, eps) == mid);
    assert(cleared(mid, rows, dm) =~= mid);
    lemma_silent_feed_forward(mid, first, shape, seq, rows, eps);
    lemma_silent_attention(mid, second, shape, seq, rows, eps);
    feed_forward_half_uses_its_own_weights(mid, second, w, shape, seq, eps);
}

/// The layers run in order: running the first `n` and then, on what came out, the next `m` is
/// running all of them.
pub proof fn layers_run_in_order<S: Scalar>(
    hidden: Seq<S>,
    layers: Seq<LayerWeights<S>>,
    shape: Shape,
    seq: nat,
    rows: int,
    eps: S,
    n: nat,
    m: nat,
)
    requires
        n + m <= layers.len(),
    ensures
        layers_value(hidden, layers, shape, seq, rows, eps, n + m) == layers_value(
            layers_value(hidden, layers, shape, seq, rows, eps, n),
            layers.skip(n as int),
            shape,
            seq,
            rows,
            eps,
            m,
        ),
        layers.len() > 0 ==> layers_value(hidden, layers, shape, seq, rows, eps, 1) == layer_value(
            hidden,
            layers[0],
            shape,
            seq,
            rows,
            eps,
        ),
    decreases m,
{
    reveal_with_fuel(layers_value, 2);
    if m > 0 {
        layers_run_in_order(hidden, layers, shape, seq, rows, eps, n, (m - 1) as nat);
        assert(layers.skip(n as int)[m - 1] == layers[n + m - 1]);
    }
}

/// In exact arithmetic, the last normalization's scale and shift are applied at the very end.
pub proof fn final_scale_and_shift_come_last<S: Scalar>(
    tokens: Seq<u32>,
    wte: Seq<S>,
    wpe: Seq<S>,
    layers: Seq<LayerWeights<S>>,
    gamma: Seq<S>,
    beta: Seq<S>,
    ones: Seq<S>,
    zeros: Seq<S>,
    shape: Shape,
    seq: nat,
    eps: S,
    r: int,
    c: int,
)
    requires
        exact_field::<S>(),
        shape.wf(),
        0 <= r < seq,
        0 <= c < shape.d_model,
        ones[c] == one::<S>(),
        zeros[c] == zero::<S>(),
    ensures
        forward_value(tokens, wte, wpe, layers, gamma, beta, shape, seq, eps)[r * shape.d_model + c]
            == S::sum(
            S::product(
                forward_value(tokens, wte, wpe, layers, ones, zeros, shape, seq, eps)[r
                    * shape.d_model + c],
                gamma[c],
            ),
            beta[c],
        ),
{
    let dm = shape.d_model as nat;
    let x = layers_value(
        embedded_tokens(tokens, wte, wpe, dm as int, seq),
        layers,
        shape,
        seq,
        tokens.len() as int,
        eps,
        layers.len(),
    );
    lemma_layers_len(
        embedded_tokens(tokens, wte, wpe, dm as int, seq),
        layers,
        shape,
        seq,
        tokens.len() as int,
        eps,
        layers.len(),
    );
    assert((r + 1) * dm <= seq * dm) by (nonlinear_arith)
        requires
            r + 1 <= seq,
            0 <= dm,
    ;
    scale_and_shift_come_last(x, gamma, beta, ones, zeros, r, dm, eps, c);
}

proof fn lemma_layers_len<S: Scalar>(
    hidden: Seq<S>,
    layers: Seq<LayerWeights<S>>,
    shape: Shape,
    seq: nat,
    rows: int,
    eps: S,
    n: nat,
)
    ensures
        layers_value(hidden, layers, shape, seq, rows, eps, n).len() == hidden.len(),
    decreases n,
{
    if n > 0 {
        lemma_layers_len(hidden, layers, shape, seq, rows, eps, (n - 1) as nat);
    }
}

/// The rows of two matrices up to row `i` are the same.
pub open spec fn same_rows<S>(a: Seq<S>, b: Seq<S>, i: int, n: nat) -> bool {
    forall|r: int| 0 <= r <= i ==> #[trigger] same_row(a, r, b, r, n)
}

proof fn lemma_has_rows<S>(x: Seq<S>, seq: nat, r: int, n: nat)
    requires
        x.len() == seq * n,
        0 <= r < seq,
    ensures
        has_row(x, r, n),
{
    assert((r + 1) * n <= seq * n) by (nonlinear_arith)
        requires
            r + 1 <= seq,
            0 <= n,
    ;
}

proof fn lemma_same_norm<S: Scalar>(
    a: Seq<S>,
    b: Seq<S>,
    gamma: Seq<S>,
    beta: Seq<S>,
    seq: nat,
    more: nat,
    dim: nat,
    eps: S,
    i: int,
)
    requires
        dim > 0,
        a.len() == seq * dim,
        b.len() == more * dim,
        0 <= i < seq,
        i < more,
        same_rows(a, b, i, dim),
    ensures
        same_rows(
            normalized_rows(a, gamma, beta, dim, eps),
            normalized_rows(b, gamma, beta, dim, eps),
            i,
            dim,
        ),
{
    let (x, y) = (
        normalized_rows(a, gamma, beta, dim, eps),
        normalized_rows(b, gamma, beta, dim, eps),
    );
    assert forall|r: int| 0 <= r <= i implies #[trigger] same_row(x, r, y, r, dim) by {
        assert(same_row(a, r, b, r, dim));
        lemma_has_rows(a, seq, r, dim);
        lemma_has_rows(b, more, r, dim);
        assert forall|c: int| 0 <= c < dim implies #[trigger] x[r * dim + c] == y[r * dim + c] by {
            normalized_elements_depend_on_their_row(
                a,
                b,
                r,
                r,
                gamma,
                gamma,
                beta,
                beta,
                dim,
                eps,
                c,
            );
        }
    }
}

proof fn lemma_same_product<S: Scalar>(
    a: Seq<S>,
    b: Seq<S>,
    w: Seq<S>,
    bias: Seq<S>,
    seq: nat,
    more: nat,
    k: nat,
    n: nat,
    i: int,
)
    requires
        a.len() == seq * k,
        b.len() == more * k,
        0 <= i < seq,
        i < more,
        same_rows(a, b, i, k),
    ensures
        same_rows(
            biased(matmul_value(a, w, seq, k, n), bias, n as int),
            biased(matmul_value(b, w, more, k, n), bias, n as int),
            i,
            n,
        ),
{
    let (x, y) = (matmul_value(a, w, seq, k, n), matmul_value(b, w, more, k, n));
    let (u, v) = (biased(x, bias, n as int), biased(y, bias, n as int));
    assert forall|r: int| 0 <= r <= i implies #[trigger] same_row(u, r, v, r, n) by {
        assert(same_row(a, r, b, r, k));
        lemma_has_rows(a, seq, r, k);
        lemma_has_rows(b, more, r, k);
        assert forall|c: int| 0 <= c < n implies #[trigger] u[r * n + c] == v[r * n + c] by {
            products_depend_on_row_and_column(a, w, b, w, seq, more, k, n, r, r, c);
            lemma_has_rows(x, seq, r, n);
            lemma_has_rows(y, more, r, n);
            biases_belong_to_columns(x, bias, r, c, n as int);
            biases_belong_to_columns(y, bias, r, c, n as int);
        }
    }
}

proof fn lemma_past_counts<S: Scalar>(qkv: Seq<S>, seq: nat, shape: Shape, h: int, i: int)
    requires
        exact::<S>(),
    ensures
        past_counts(qkv, seq, shape, h, i),
{
    reveal(products_count);
}

proof fn lemma_part_in_row(shape: Shape, part: int, h: int, s: int, d: int)
    requires
        shape.wf(),
        0 <= part < 3,
        0 <= h < shape.n_heads,
        0 <= d < shape.d_head,
    ensures
        ({
            let c = part * shape.d_model + h * shape.d_head + d;
            &&& 0 <= c < 3 * shape.d_model
            &&& part_place(shape, part, h, s, d) == s * (3 * shape.d_model) + c
        }),
{
    lemma_cell(h, shape.n_heads as int, d, shape.d_head as int);
    let dm = shape.d_model as int;
    assert(0 <= part * dm && part * dm + dm <= 3 * dm) by (nonlinear_arith)
        requires
            0 <= part < 3,
            0 <= dm,
    ;
}

proof fn lemma_same_attention<S: Scalar>(
    a: Seq<S>,
    b: Seq<S>,
    shape: Shape,
    seq: nat,
    more: nat,
    i: int,
)
    requires
        exact::<S>(),
        shape.wf(),
        0 <= i < seq,
        i < more,
        same_rows(a, b, i, 3 * shape.d_model as nat),
    ensures
        same_rows(
            attention_value(a, seq, shape),
            attention_value(b, more, shape),
            i,
            shape.d_model as nat,
        ),
{
    let (x, y) = (attention_value(a, seq, shape), attention_value(b, more, shape));
    let (dm, dh) = (shape.d_model as nat, shape.d_head as nat);
    let wide = 3 * shape.d_model as nat;
    assert forall|r: int| 0 <= r <= i implies #[trigger] same_row(x, r, y, r, dm) by {
        assert forall|c: int| 0 <= c < dm implies #[trigger] x[r * dm + c] == y[r * dm + c] by {
            lemma_place(c, shape.n_heads as int, dh as int);
            let (h, d) = (c / dh as int, c % dh as int);
            lemma_past_counts(a, seq, shape, h, r);
            lemma_past_counts(b, more, shape, h, r);
            assert forall|j: int, part: int, e: int|
                0 <= j <= r && 0 <= part < 3 && 0 <= e < dh implies #[trigger] a[part_place(
                shape,
                part,
                h,
                j,
                e,
            )] == b[part_place(shape, part, h, j, e)] by {
                assert(same_row(a, j, b, j, wide));
                lemma_part_in_row(shape, part, h, j, e);
                let p = part * shape.d_model + h * shape.d_head + e;
                assert(a[j * wide + p] == b[j * wide + p]);
            }
            attention_depends_on_the_past(a, b, seq, more, shape, h, r, d);
            assert(result_place(shape, h, r, d) == r * dm + c);
        }
    }
}

proof fn lemma_same_layer<S: Scalar>(
    a: Seq<S>,
    b: Seq<S>,
    w: LayerWeights<S>,
    shape: Shape,
    seq: nat,
    more: nat,
    rows: int,
    others: int,
    eps: S,
    i: int,
)
    requires
        exact::<S>(),
        shape.wf(),
        a.len() == seq * shape.d_model,
        b.len() == more * shape.d_model,
        0 <= i < rows <= seq,
        i < others <= more,
        same_rows(a, b, i, shape.d_model as nat),
    ensures
        same_rows(
            layer_value(a, w, shape, seq, rows, eps),
            layer_value(b, w, shape, more, others, eps),
            i,
            shape.d_model as nat,
        ),
{
    let dm = shape.d_model as nat;
    let df = shape.d_ffn as nat;
    let (na, nb) = (
        normalized_rows(a, w.ln_1_weight@, w.ln_1_bias@, dm, eps),
        normalized_rows(b, w.ln_1_weight@, w.ln_1_bias@, dm, eps),
    );
    lemma_same_norm(a, b, w.ln_1_weight@, w.ln_1_bias@, seq, more, dm, eps, i);
    lemma_same_product(na, nb, w.c_attn_weight@, w.c_attn_bias@, seq, more, dm, 3 * dm, i);
    let qa = biased(
        matmul_value(na, w.c_attn_weight@, seq, dm, 3 * dm),
        w.c_attn_bias@,
        3 * dm as int,
    );
    let qb = biased(
        matmul_value(nb, w.c_attn_weight@, more, dm, 3 * dm),
        w.c_attn_bias@,
        3 * dm as int,
    );
    lemma_same_attention(qa, qb, shape, seq, more, i);
    lemma_same_product(
        attention_value(qa, seq, shape),
        attention_value(qb, more, shape),
        w.c_proj_weight@,
        w.c_proj_bias@,
        seq,
        more,
        dm,
        dm,
        i,
    );
    let (ba, bb) = (
        attention_branch(a, w, shape, seq, eps),
        attention_branch(b, w, shape, more, eps),
    );
    lemma_same_residual(a, b, ba, bb, seq, more, rows, others, dm, i);
    let ma = middle_value(a, w, shape, seq, rows, eps);
    let mb = middle_value(b, w, shape, more, others, eps);
    let (la, lb) = (
        normalized_rows(ma, w.ln_2_weight@, w.ln_2_bias@, dm, eps),
        normalized_rows(mb, w.ln_2_weight@, w.ln_2_bias@, dm, eps),
    );
    lemma_same_norm(ma, mb, w.ln_2_weight@, w.ln_2_bias@, seq, more, dm, eps, i);
    lemma_same_product(la, lb, w.mlp_fc_weight@, w.mlp_fc_bias@, seq, more, dm, df, i);
    let ua = biased(matmul_value(la, w.mlp_fc_weight@, seq, dm, df), w.mlp_fc_bias@, df as int);
    let ub = biased(matmul_value(lb, w.mlp_fc_weight@, more, dm, df), w.mlp_fc_bias@, df as int);
    assert(same_rows(activated(ua), activated(ub), i, df)) by {
        assert forall|r: int| 0 <= r <= i implies #[trigger] same_row(
            activated(ua),
            r,
            activated(ub),
            r,
            df,
        ) by {
            assert(same_row(ua, r, ub, r, df));
            assert forall|c: int| 0 <= c < df implies #[trigger] activated(ua)[r * df + c]
                == activated(ub)[r * df + c] by {
                lemma_cell(r, seq as int, c, df as int);
                lemma_cell(r, more as int, c, df as int);
                assert(ua[r * df + c] == ub[r * df + c]);
            }
        }
    }
    lemma_same_product(
        activated(ua),
        activated(ub),
        w.mlp_proj_weight@,
        w.mlp_proj_bias@,
        seq,
        more,
        df,
        dm,
        i,
    );
    lemma_same_residual(
        ma,
        mb,
        feed_forward_branch(ma, w, shape, seq, eps),
        feed_forward_branch(mb, w, shape, more, eps),
        seq,
        more,
        rows,
        others,
        dm,
        i,
    );
}

proof fn lemma_same_residual<S: Scalar>(
    a: Seq<S>,
    b: Seq<S>,
    u: Seq<S>,
    v: Seq<S>,
    seq: nat,
    more: nat,
    rows: int,
    others: int,
    dim: nat,
    i: int,
)
    requires
        a.len() == seq * dim,
        b.len() == more * dim,
        0 <= i < rows <= seq,
        i < others <= more,
        same_rows(a, b, i, dim),
        same_rows(u, v, i, dim),
    ensures
        same_rows(
            cleared(added(a, u), rows, dim as int),
            cleared(added(b, v), others, dim as int),
            i,
            dim,
        ),
{
    let (x, y) = (
        cleared(added(a, u), rows, dim as int),
        cleared(added(b, v), others, dim as int),
    );
    assert forall|r: int| 0 <= r <= i implies #[trigger] same_row(x, r, y, r, dim) by {
        assert(same_row(a, r, b, r, dim));
        assert(same_row(u, r, v, r, dim));
        assert forall|c: int| 0 <= c < dim implies #[trigger] x[r * dim + c] == y[r * dim + c] by {
            lemma_cell(r, rows, c, dim as int);
            lemma_cell(r, others, c, dim as int);
            lemma_cell(r, seq as int, c, dim as int);
            lemma_cell(r, more as int, c, dim as int);
            assert(a[r * dim + c] == b[r * dim + c]);
            assert(u[r * dim + c] == v[r * dim + c]);
        }
    }
}

proof fn lemma_same_layers<S: Scalar>(
    a: Seq<S>,
    b: Seq<S>,
    layers: Seq<LayerWeights<S>>,
    shape: Shape,
    seq: nat,
    more: nat,
    rows: int,
    others: int,
    eps: S,
    i: int,
    n: nat,
)
    requires
        exact::<S>(),
        shape.wf(),
        a.len() == seq * shape.d_model,
        b.len() == more * shape.d_model,
        0 <= i < rows <= seq,
        i < others <= more,
        same_rows(a, b, i, shape.d_model as nat),
    ensures
        same_rows(
            layers_value(a, layers, shape, seq, rows, eps, n),
            layers_value(b, layers, shape, more, others, eps, n),
            i,
            shape.d_model as nat,
        ),
    decreases n,
{
    if n > 0 {
        let m = (n - 1) as nat;
        lemma_same_layers(a, b, layers, shape, seq, more, rows, others, eps, i, m);
        lemma_layers_len(a, layers, shape, seq, rows, eps, m);
        lemma_layers_len(b, layers, shape, more, others, eps, m);
        lemma_same_layer(
            layers_value(a, layers, shape, seq, rows, eps, m),
            layers_value(b, layers, shape, more, others, eps, m),
            layers[n - 1],
            shape,
            seq,
            more,
            rows,
            others,
            eps,
            i,
        );
    }
}

/// In exact arithmetic, what a pass gives for a position depends on the tokens up to it only:
/// not on later tokens, and not on how many rows of padding there are.
pub proof fn positions_depend_on_earlier_tokens<S: Scalar>(
    a: Seq<u32>,
    b: Seq<u32>,
    wte: Seq<S>,
    wpe: Seq<S>,
    layers: Seq<LayerWeights<S>>,
    ln_f_weight: Seq<S>,
    ln_f_bias: Seq<S>,
    shape: Shape,
    seq: nat,
    more: nat,
    eps: S,
    i: int,
    c: int,
)
    requires
        exact::<S>(),
        shape.wf(),
        0 <= i < a.len() <= seq,
        i < b.len() <= more,
        forall|p: int| 0 <= p <= i ==> #[trigger] a[p] == b[p],
        0 <= c < shape.d_model,
    ensures
        forward_value(a, wte, wpe, layers, ln_f_weight, ln_f_bias, shape, seq, eps)[i
            * shape.d_model + c] == forward_value(
            b,
            wte,
            wpe,
            layers,
            ln_f_weight,
            ln_f_bias,
            shape,
            more,
            eps,
        )[i * shape.d_model + c],
{
    let dm = shape.d_model as nat;
    let (ea, eb) = (
        embedded_tokens(a, wte, wpe, dm as int, seq),
        embedded_tokens(b, wte, wpe, dm as int, more),
    );
    assert forall|r: int| 0 <= r <= i implies #[trigger] same_row(ea, r, eb, r, dm) by {
        assert(a[r] == b[r]);
        assert forall|d: int| 0 <= d < dm implies #[trigger] ea[r * dm + d] == eb[r * dm + d] by {
            embeddings_depend_on_their_token(a, b, wte, wpe, dm, seq, more, r, d);
        }
    }
    let (n, m) = (a.len() as int, b.len() as int);
    let all = layers.len();
    lemma_same_layers(ea, eb, layers, shape, seq, more, n, m, eps, i, all);
    lemma_layers_len(ea, layers, shape, seq, n, eps, all);
    lemma_layers_len(eb, layers, shape, more, m, eps, all);
    let (xa, xb) = (
        layers_value(ea, layers, shape, seq, n, eps, all),
        layers_value(eb, layers, shape, more, m, eps, all),
    );
    lemma_same_norm(xa, xb, ln_f_weight, ln_f_bias, seq, more, dm, eps, i);
    let (fa, fb) = (
        normalized_rows(xa, ln_f_weight, ln_f_bias, dm, eps),
        normalized_rows(xb, ln_f_weight, ln_f_bias, dm, eps),
    );
    assert(same_row(fa, i, fb, i, dm));
    assert(fa[i * dm + c] == fb[i * dm + c]);
}

/// In exact arithmetic, a feed-forward half whose projection up is zero adds to every row the
/// projection down of that projection's activated bias.
pub proof fn bias_of_the_projection_up_is_activated<S: Scalar>(
    hidden: Seq<S>,
    w: LayerWeights<S>,
    shape: Shape,
    seq: nat,
    eps: S,
    r: int,
    c: int,
)
    requires
        exact_ring::<S>(),
        shape.wf(),
        w.wf(shape),
        all_zero(w.mlp_fc_weight@),
        0 <= r < seq,
        0 <= c < shape.d_model,
    ensures
        feed_forward_branch(hidden, w, shape, seq, eps)[r * shape.d_model + c] == S::sum(
            dot(
                activated(w.mlp_fc_bias@),
                column(w.mlp_proj_weight@, shape.d_ffn as nat, shape.d_model as int, c),
                shape.d_ffn as nat,
            ),
            w.mlp_proj_bias@[c],
        ),
{
    let dm = shape.d_model as nat;
    let df = shape.d_ffn as nat;
    let ln = normalized_rows(hidden, w.ln_2_weight@, w.ln_2_bias@, dm, eps);
    let up = biased(matmul_value(ln, w.mlp_fc_weight@, seq, dm, df), w.mlp_fc_bias@, df as int);
    lemma_cell(r, seq as int, c, dm as int);
    lemma_cell(r, seq as int, 0, df as int);
    let row = activated(up).subrange(r * df, r * df + df);
    assert forall|p: int| 0 <= p < df implies #[trigger] row[p] == activated(w.mlp_fc_bias@)[p] by {
        lemma_cell(r, seq as int, p, df as int);
        lemma_last_product(ln, w.mlp_fc_weight@, w.mlp_fc_bias@, seq, dm, df, r, p);
    }
    let col = column(w.mlp_proj_weight@, df, dm as int, c);
    dot_depends_on_its_elements(row, col, activated(w.mlp_fc_bias@), col, df);
}

/// In exact arithmetic, an attention half whose joint projection is zero adds to every row the
/// projection of the values' part of that projection's bias: all positions have the same value,
/// and attention keeps it.
pub proof fn bias_of_the_joint_projection_is_attended<S: Scalar>(
    hidden: Seq<S>,
    w: LayerWeights<S>,
    shape: Shape,
    seq: nat,
    eps: S,
    qkv: Seq<S>,
    r: int,
    c: int,
)
    requires
        exact_ring::<S>(),
        exact_exponential::<S>(),
        exact_softmax::<S>(),
        scores_have_weight::<S>(),
        sums_stay_positive::<S>(),
        inverses_exist::<S>(),
        one_changes_nothing::<S>(),
        shape.wf(),
        w.wf(shape),
        all_zero(w.c_attn_weight@),
        0 <= r < seq,
        0 <= c < shape.d_model,
        qkv.len() == seq * (3 * shape.d_model),
        forall|s: int, p: int|
            0 <= s < seq && 0 <= p < 3 * shape.d_model ==> #[trigger] qkv[s * (3 * shape.d_model)
                + p] == w.c_attn_bias@[p],
        forall|h: int| 0 <= h < shape.n_heads ==> #[trigger] past_counts(qkv, seq, shape, h, r),
    ensures
        attention_branch(hidden, w, shape, seq, eps)[r * shape.d_model + c] == S::sum(
            dot(
                w.c_attn_bias@.subrange(2 * shape.d_model as int, 3 * shape.d_model as int),
                column(w.c_proj_weight@, shape.d_model as nat, shape.d_model as int, c),
                shape.d_model as nat,
            ),
            w.c_proj_bias@[c],
        ),
{
    let dm = shape.d_model as nat;
    let dh = shape.d_head as nat;
    let ln = normalized_rows(hidden, w.ln_1_weight@, w.ln_1_bias@, dm, eps);
    let joint = biased(
        matmul_value(ln, w.c_attn_weight@, seq, dm, 3 * dm),
        w.c_attn_bias@,
        3 * dm as int,
    );
    let wide = (3 * dm) as int;
    assert forall|i: int| 0 <= i < seq * (3 * dm) implies #[trigger] joint[i] == qkv[i] by {
        lemma_place(i, seq as int, wide);
        let (s, p) = (i / wide, i % wide);
        lemma_last_product(ln, w.c_attn_weight@, w.c_attn_bias@, seq, dm, 3 * dm, s, p);
        assert(qkv[s * (3 * shape.d_model) + p] == w.c_attn_bias@[p]);
    }
    assert(joint =~= qkv);
    let out = attention_value(qkv, seq, shape);
    let values = w.c_attn_bias@.subrange(2 * dm as int, 3 * dm as int);
    lemma_cell(r, seq as int, c, dm as int);
    let row = out.subrange(r * dm, r * dm + dm);
    assert forall|p: int| 0 <= p < dm implies #[trigger] row[p] == values[p] by {
        lemma_place(p, shape.n_heads as int, dh as int);
        let (h, d) = (p / dh as int, p % dh as int);
        assert(past_counts(qkv, seq, shape, h, r));
        assert forall|j: int| 0 <= j <= r implies #[trigger] qkv[part_place(shape, 2, h, j, d)]
            == values[p] by {
            lemma_part_in_row(shape, 2, h, j, d);
            let at = 2 * shape.d_model + h * shape.d_head + d;
            assert(qkv[j * (3 * shape.d_model) + at] == w.c_attn_bias@[at]);
        }
        attention_keeps_common_values(qkv, seq, shape, h, r, d, values[p]);
        assert(result_place(shape, h, r, d) == r * dm + p);
        lemma_cell(r, seq as int, p, dm as int);
    }
    let col = column(w.c_proj_weight@, dm, dm as int, c);
    dot_depends_on_its_elements(row, col, values, col, dm);
}

} // verus!
