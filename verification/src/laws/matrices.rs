//! Laws of products, biases, embeddings and scores of tokens.

use vstd::prelude::*;

use crate::exact::{
    exact_field, exact_ring, lemma_commute_sum, lemma_regroup_product, lemma_regroup_sum,
};
use crate::index::{lemma_cell, lemma_next_row, lemma_place};
use crate::laws::sums::{
    dot_adds, dot_depends_on_its_elements, dot_scales, dot_with_a_unit_vector, dot_with_zeros,
};
use crate::reference::{biased, cleared, column, embedded_tokens, logits_value, matmul_value};
use crate::scalar::{one, zero, Scalar};
use crate::tensor::dot;

verus! {

/// Row `r` of a matrix with rows of `n` and row `s` of another are the same.
pub open spec fn same_row<S>(a: Seq<S>, r: int, b: Seq<S>, s: int, n: nat) -> bool {
    forall|j: int| 0 <= j < n ==> #[trigger] a[r * n + j] == b[s * n + j]
}

/// There is a row `r` of `n` elements.
pub open spec fn has_row<S>(a: Seq<S>, r: int, n: nat) -> bool {
    0 <= r && (r + 1) * n <= a.len()
}

proof fn lemma_row<S>(a: Seq<S>, r: int, n: nat)
    requires
        has_row(a, r, n),
    ensures
        0 <= r * n,
        r * n + n <= a.len(),
        a.subrange(r * n, r * n + n).len() == n,
        forall|j: int| 0 <= j < n ==> #[trigger] a.subrange(r * n, r * n + n)[j] == a[r * n + j],
{
    lemma_next_row(r, n as int);
    assert(0 <= r * n) by (nonlinear_arith)
        requires
            0 <= r,
            0 <= n,
    ;
}

/// An element of a product depends on its row of the first matrix and its column of the
/// second, and on nothing else.
pub proof fn products_depend_on_row_and_column<S: Scalar>(
    a: Seq<S>,
    b: Seq<S>,
    c: Seq<S>,
    d: Seq<S>,
    m: nat,
    l: nat,
    k: nat,
    n: nat,
    r: int,
    s: int,
    j: int,
)
    requires
        0 <= r < m,
        0 <= s < l,
        0 <= j < n,
        has_row(a, r, k),
        has_row(c, s, k),
        same_row(a, r, c, s, k),
        forall|p: int| 0 <= p < k ==> #[trigger] b[p * n + j] == d[p * n + j],
    ensures
        matmul_value(a, b, m, k, n)[r * n + j] == matmul_value(c, d, l, k, n)[s * n + j],
{
    lemma_cell(r, m as int, j, n as int);
    lemma_cell(s, l as int, j, n as int);
    lemma_row(a, r, k);
    lemma_row(c, s, k);
    let (ra, rc) = (a.subrange(r * k, r * k + k), c.subrange(s * k, s * k + k));
    let (cb, cd) = (column(b, k, n as int, j), column(d, k, n as int, j));
    assert forall|p: int| 0 <= p < k implies #[trigger] ra[p] == rc[p] by {
        assert(a[r * k + p] == c[s * k + p]);
    }
    assert forall|p: int| 0 <= p < k implies #[trigger] cb[p] == cd[p] by {
        assert(b[p * n + j] == d[p * n + j]);
    }
    dot_depends_on_its_elements(ra, cb, rc, cd, k);
}

/// In exact arithmetic, a row with a single one picks out a row of the second matrix.
pub proof fn unit_rows_pick_rows<S: Scalar>(
    a: Seq<S>,
    b: Seq<S>,
    m: nat,
    k: nat,
    n: nat,
    r: int,
    p: int,
    j: int,
)
    requires
        exact_field::<S>(),
        0 <= r < m,
        0 <= j < n,
        0 <= p < k,
        has_row(a, r, k),
        forall|q: int|
            0 <= q < k ==> #[trigger] a[r * k + q] == if q == p {
                one::<S>()
            } else {
                zero::<S>()
            },
    ensures
        matmul_value(a, b, m, k, n)[r * n + j] == b[p * n + j],
{
    lemma_cell(r, m as int, j, n as int);
    lemma_row(a, r, k);
    let ra = a.subrange(r * k, r * k + k);
    assert forall|q: int| 0 <= q < k implies #[trigger] ra[q] == if q == p {
        one::<S>()
    } else {
        zero::<S>()
    } by {
        assert(ra[q] == a[r * k + q]);
    }
    dot_with_a_unit_vector(ra, column(b, k, n as int, j), p, k);
}

/// In exact arithmetic, a row that is the sum of two rows has the sum of their products.
pub proof fn products_add_rows<S: Scalar>(
    a: Seq<S>,
    b: Seq<S>,
    total: Seq<S>,
    w: Seq<S>,
    m: nat,
    k: nat,
    n: nat,
    r: int,
    j: int,
)
    requires
        exact_ring::<S>(),
        0 <= r < m,
        0 <= j < n,
        has_row(a, r, k),
        has_row(b, r, k),
        has_row(total, r, k),
        forall|q: int|
            0 <= q < k ==> #[trigger] total[r * k + q] == S::sum(a[r * k + q], b[r * k + q]),
    ensures
        matmul_value(total, w, m, k, n)[r * n + j] == S::sum(
            matmul_value(a, w, m, k, n)[r * n + j],
            matmul_value(b, w, m, k, n)[r * n + j],
        ),
{
    lemma_cell(r, m as int, j, n as int);
    lemma_row(a, r, k);
    lemma_row(b, r, k);
    lemma_row(total, r, k);
    let (ra, rb, rt) = (
        a.subrange(r * k, r * k + k),
        b.subrange(r * k, r * k + k),
        total.subrange(r * k, r * k + k),
    );
    assert forall|q: int| 0 <= q < k implies #[trigger] rt[q] == S::sum(ra[q], rb[q]) by {
        assert(rt[q] == total[r * k + q]);
        assert(ra[q] == a[r * k + q] && rb[q] == b[r * k + q]);
    }
    dot_adds(ra, rb, rt, column(w, k, n as int, j), k);
}

proof fn lemma_moved_factors<S: Scalar>(
    a: Seq<S>,
    scaled_a: Seq<S>,
    b: Seq<S>,
    scaled_b: Seq<S>,
    f: Seq<S>,
    n: nat,
)
    requires
        exact_ring::<S>(),
        forall|p: int| 0 <= p < n ==> #[trigger] scaled_a[p] == S::product(a[p], f[p]),
        forall|p: int| 0 <= p < n ==> #[trigger] scaled_b[p] == S::product(f[p], b[p]),
    ensures
        dot(scaled_a, b, n) == dot(a, scaled_b, n),
    decreases n,
{
    if n > 0 {
        lemma_moved_factors(a, scaled_a, b, scaled_b, f, (n - 1) as nat);
        assert(scaled_a[n - 1] == S::product(a[n - 1], f[n - 1]));
        assert(scaled_b[n - 1] == S::product(f[n - 1], b[n - 1]));
        lemma_regroup_product(a[n - 1], f[n - 1], b[n - 1]);
    }
}

/// In exact arithmetic, factors of the columns of the first matrix may be moved to the rows of
/// the second.
pub proof fn factors_move_through_products<S: Scalar>(
    a: Seq<S>,
    scaled_a: Seq<S>,
    b: Seq<S>,
    scaled_b: Seq<S>,
    f: Seq<S>,
    m: nat,
    k: nat,
    n: nat,
)
    requires
        exact_ring::<S>(),
        a.len() == m * k,
        scaled_a.len() == m * k,
        forall|r: int, p: int|
            0 <= r < m && 0 <= p < k ==> #[trigger] scaled_a[r * k + p] == S::product(
                a[r * k + p],
                f[p],
            ),
        forall|p: int, j: int|
            0 <= p < k && 0 <= j < n ==> #[trigger] scaled_b[p * n + j] == S::product(
                f[p],
                b[p * n + j],
            ),
    ensures
        matmul_value(scaled_a, b, m, k, n) == matmul_value(a, scaled_b, m, k, n),
{
    let (x, y) = (matmul_value(scaled_a, b, m, k, n), matmul_value(a, scaled_b, m, k, n));
    assert forall|i: int| 0 <= i < m * n implies #[trigger] x[i] == y[i] by {
        lemma_place(i, m as int, n as int);
        let (r, j) = (i / n as int, i % n as int);
        lemma_cell(r, m as int, 0, k as int + 1);
        assert((r + 1) * k <= m * k) by (nonlinear_arith)
            requires
                r + 1 <= m,
                0 <= k,
        ;
        lemma_row(a, r, k);
        lemma_row(scaled_a, r, k);
        let (ra, rs) = (a.subrange(r * k, r * k + k), scaled_a.subrange(r * k, r * k + k));
        let (cb, cs) = (column(b, k, n as int, j), column(scaled_b, k, n as int, j));
        assert forall|p: int| 0 <= p < k implies #[trigger] rs[p] == S::product(ra[p], f[p]) by {
            assert(rs[p] == scaled_a[r * k + p] && ra[p] == a[r * k + p]);
        }
        assert forall|p: int| 0 <= p < k implies #[trigger] cs[p] == S::product(f[p], cb[p]) by {
            assert(cs[p] == scaled_b[p * n + j]);
        }
        lemma_moved_factors(ra, rs, cb, cs, f, k);
    }
    assert(x =~= y);
}

/// In exact arithmetic, a product with a matrix of zeros is zero.
pub proof fn products_with_zeros<S: Scalar>(
    a: Seq<S>,
    b: Seq<S>,
    m: nat,
    k: nat,
    n: nat,
    i: int,
)
    requires
        exact_ring::<S>(),
        0 <= i < m * n,
        b.len() == k * n,
        forall|p: int| 0 <= p < b.len() ==> #[trigger] b[p] == zero::<S>(),
    ensures
        matmul_value(a, b, m, k, n)[i] == zero::<S>(),
{
    lemma_place(i, m as int, n as int);
    let (r, j) = (i / n as int, i % n as int);
    let c = column(b, k, n as int, j);
    assert forall|p: int| 0 <= p < k implies #[trigger] c[p] == zero::<S>() by {
        lemma_cell(p, k as int, j, n as int);
    }
    dot_with_zeros(c, a.subrange(r * k, r * k + k), k);
}

/// A bias is added to the column that it belongs to, in every row.
pub proof fn biases_belong_to_columns<S: Scalar>(x: Seq<S>, bias: Seq<S>, r: int, c: int, dim: int)
    requires
        0 <= r,
        0 <= c < dim,
        (r + 1) * dim <= x.len(),
    ensures
        biased(x, bias, dim).len() == x.len(),
        biased(x, bias, dim)[r * dim + c] == S::sum(x[r * dim + c], bias[c]),
{
    lemma_cell(r, r + 1, c, dim);
}

/// Rows of tokens are left as they are when the padding behind them is cleared.
pub proof fn tokens_are_not_cleared<S: Scalar>(x: Seq<S>, rows: int, r: int, c: int, dim: int)
    requires
        0 <= r < rows,
        0 <= c < dim,
        rows * dim <= x.len(),
    ensures
        cleared(x, rows, dim)[r * dim + c] == x[r * dim + c],
{
    lemma_cell(r, rows, c, dim);
}

/// A token's row of the embedding is the token's row of the one table with the position's row
/// of the other added.
pub proof fn embeddings_add_token_and_position<S: Scalar>(
    tokens: Seq<u32>,
    wte: Seq<S>,
    wpe: Seq<S>,
    dim: nat,
    rows: nat,
    pos: int,
    d: int,
)
    requires
        0 <= pos < tokens.len() <= rows,
        0 <= d < dim,
    ensures
        embedded_tokens(tokens, wte, wpe, dim as int, rows)[pos * dim + d] == S::sum(
            wte[tokens[pos] * dim + d],
            wpe[pos * dim + d],
        ),
{
    lemma_cell(pos, rows as int, d, dim as int);
}

/// A token's row of the embedding depends on the token and its position only: not on other
/// tokens, and not on the number of rows.
pub proof fn embeddings_depend_on_their_token<S: Scalar>(
    a: Seq<u32>,
    b: Seq<u32>,
    wte: Seq<S>,
    wpe: Seq<S>,
    dim: nat,
    rows: nat,
    more: nat,
    pos: int,
    d: int,
)
    requires
        0 <= pos < a.len() <= rows,
        pos < b.len() <= more,
        a[pos] == b[pos],
        0 <= d < dim,
    ensures
        embedded_tokens(a, wte, wpe, dim as int, rows)[pos * dim + d] == embedded_tokens(
            b,
            wte,
            wpe,
            dim as int,
            more,
        )[pos * dim + d],
{
    lemma_cell(pos, rows as int, d, dim as int);
    lemma_cell(pos, more as int, d, dim as int);
}

/// In exact arithmetic, one token at two positions is embedded as the positions differ.
pub proof fn positions_shift_embeddings<S: Scalar>(
    tokens: Seq<u32>,
    wte: Seq<S>,
    wpe: Seq<S>,
    dim: nat,
    rows: nat,
    p: int,
    q: int,
    d: int,
)
    requires
        exact_ring::<S>(),
        0 <= p < tokens.len() <= rows,
        0 <= q < tokens.len(),
        tokens[p] == tokens[q],
        0 <= d < dim,
    ensures
        ({
            let e = embedded_tokens(tokens, wte, wpe, dim as int, rows);
            S::sum(e[p * dim + d], wpe[q * dim + d]) == S::sum(e[q * dim + d], wpe[p * dim + d])
        }),
{
    lemma_cell(p, rows as int, d, dim as int);
    lemma_cell(q, rows as int, d, dim as int);
    let t = wte[tokens[p] * dim + d];
    let (a, b) = (wpe[p * dim + d], wpe[q * dim + d]);
    lemma_regroup_sum(t, a, b);
    lemma_regroup_sum(t, b, a);
    lemma_commute_sum(a, b);
}

/// The score of a token depends on the row at the position that was asked for and on the
/// token's row of the table, and on nothing else: not on other rows of the hidden state, and
/// not on other tokens.
pub proof fn token_scores_depend_on_their_rows<S: Scalar>(
    hidden: Seq<S>,
    other: Seq<S>,
    pos: int,
    place: int,
    wte: Seq<S>,
    table: Seq<S>,
    dim: nat,
    vocab: nat,
    tokens: nat,
    v: int,
    t: int,
)
    requires
        has_row(hidden, pos, dim),
        has_row(other, place, dim),
        same_row(hidden, pos, other, place, dim),
        0 <= v < vocab,
        0 <= t < tokens,
        has_row(wte, v, dim),
        has_row(table, t, dim),
        same_row(wte, v, table, t, dim),
    ensures
        logits_value(hidden, pos, wte, dim, vocab)[v] == logits_value(
            other,
            place,
            table,
            dim,
            tokens,
        )[t],
{
    lemma_row(hidden, pos, dim);
    lemma_row(other, place, dim);
    lemma_row(wte, v, dim);
    lemma_row(table, t, dim);
    let (a, b) = (
        hidden.subrange(pos * dim, pos * dim + dim),
        other.subrange(place * dim, place * dim + dim),
    );
    let (c, d) = (wte.subrange(v * dim, v * dim + dim), table.subrange(t * dim, t * dim + dim));
    assert forall|j: int| 0 <= j < dim implies #[trigger] a[j] == b[j] by {
        assert(hidden[pos * dim + j] == other[place * dim + j]);
    }
    assert forall|j: int| 0 <= j < dim implies #[trigger] c[j] == d[j] by {
        assert(wte[v * dim + j] == table[t * dim + j]);
    }
    dot_depends_on_its_elements(a, c, b, d, dim);
}

/// The scores at a position are those of its row taken alone.
pub proof fn token_scores_are_those_of_the_row<S: Scalar>(
    hidden: Seq<S>,
    pos: int,
    wte: Seq<S>,
    dim: nat,
    vocab: nat,
)
    requires
        has_row(hidden, pos, dim),
        vocab * dim <= wte.len(),
    ensures
        logits_value(hidden, pos, wte, dim, vocab) == logits_value(
            hidden.subrange(pos * dim, (pos + 1) * dim),
            0,
            wte,
            dim,
            vocab,
        ),
{
    let alone = hidden.subrange(pos * dim, (pos + 1) * dim);
    let (x, y) = (
        logits_value(hidden, pos, wte, dim, vocab),
        logits_value(alone, 0, wte, dim, vocab),
    );
    lemma_row(hidden, pos, dim);
    lemma_next_row(pos, dim as int);
    lemma_next_row(0, dim as int);
    assert forall|v: int| 0 <= v < vocab implies #[trigger] x[v] == y[v] by {
        assert((v + 1) * dim <= vocab * dim) by (nonlinear_arith)
            requires
                v + 1 <= vocab,
                0 <= dim,
        ;
        token_scores_depend_on_their_rows(hidden, alone, pos, 0, wte, wte, dim, vocab, vocab, v, v);
    }
    assert(x =~= y);
}

/// In exact arithmetic, a hidden row with a single one gives every token the component of its
/// row at that place.
pub proof fn unit_rows_score_components<S: Scalar>(
    hidden: Seq<S>,
    pos: int,
    wte: Seq<S>,
    dim: nat,
    vocab: nat,
    k: int,
    v: int,
)
    requires
        exact_field::<S>(),
        has_row(hidden, pos, dim),
        0 <= k < dim,
        0 <= v < vocab,
        has_row(wte, v, dim),
        forall|j: int|
            0 <= j < dim ==> #[trigger] hidden[pos * dim + j] == if j == k {
                one::<S>()
            } else {
                zero::<S>()
            },
    ensures
        logits_value(hidden, pos, wte, dim, vocab)[v] == wte[v * dim + k],
{
    lemma_row(hidden, pos, dim);
    lemma_row(wte, v, dim);
    let h = hidden.subrange(pos * dim, pos * dim + dim);
    assert forall|j: int| 0 <= j < dim implies #[trigger] h[j] == if j == k {
        one::<S>()
    } else {
        zero::<S>()
    } by {
        assert(h[j] == hidden[pos * dim + j]);
    }
    dot_with_a_unit_vector(h, wte.subrange(v * dim, v * dim + dim), k, dim);
}

/// In exact arithmetic, a factor of the hidden row is a factor of every score.
pub proof fn token_scores_scale<S: Scalar>(
    hidden: Seq<S>,
    scaled: Seq<S>,
    f: S,
    pos: int,
    wte: Seq<S>,
    dim: nat,
    vocab: nat,
    v: int,
)
    requires
        exact_ring::<S>(),
        has_row(hidden, pos, dim),
        has_row(scaled, pos, dim),
        0 <= v < vocab,
        forall|j: int|
            0 <= j < dim ==> #[trigger] scaled[pos * dim + j] == S::product(
                f,
                hidden[pos * dim + j],
            ),
    ensures
        logits_value(scaled, pos, wte, dim, vocab)[v] == S::product(
            f,
            logits_value(hidden, pos, wte, dim, vocab)[v],
        ),
{
    lemma_row(hidden, pos, dim);
    lemma_row(scaled, pos, dim);
    let (a, b) = (
        hidden.subrange(pos * dim, pos * dim + dim),
        scaled.subrange(pos * dim, pos * dim + dim),
    );
    assert forall|j: int| 0 <= j < dim implies #[trigger] b[j] == S::product(f, a[j]) by {
        assert(b[j] == scaled[pos * dim + j] && a[j] == hidden[pos * dim + j]);
    }
    dot_scales(a, wte.subrange(v * dim, v * dim + dim), b, f, dim);
}

} // verus!
