//! The forward pass of the transformer, one operation after the other.
//!
//! Activations are row-major: one row of `d_model` elements for each position.

use vstd::prelude::*;

use crate::exact::{
    counts_are_sums, exact_field, exact_roots, lemma_over_times, squares_undo_roots,
};
use crate::index::{lemma_cell, lemma_next_row};
use crate::kernels::reduce::{range_deviation, range_sum};
use crate::scalar::{above, one, zero, Constant, Scalar};
use crate::tensor::{dot, dot_product};

verus! {

/// The sizes of a transformer.
#[derive(Clone, Copy, Debug, PartialEq, Eq, Structural)]
pub struct Shape {
    pub d_model: usize,
    pub n_heads: usize,
    pub d_head: usize,
    pub d_ffn: usize,
}

impl Shape {
    /// The heads share out a row between them.
    pub open spec fn wf(self) -> bool {
        &&& self.d_model > 0
        &&& self.d_head > 0
        &&& self.d_ffn > 0
        &&& self.n_heads * self.d_head == self.d_model
        &&& self.d_model * 3 <= usize::MAX
    }

    /// The sizes of GPT-2 small.
    pub fn gpt2() -> (r: Shape)
        ensures
            r == (Shape { d_model: 768, n_heads: 12, d_head: 64, d_ffn: 3072 }),
            r.wf(),
    {
        Shape { d_model: 768, n_heads: 12, d_head: 64, d_ffn: 3072 }
    }
}

/// The mean of row `r`.
pub open spec fn row_mean<S: Scalar>(x: Seq<S>, r: int, dim: nat) -> S {
    S::quotient(range_sum(x, r * dim, dim), S::count_value(dim))
}

/// The inverse standard deviation of row `r`.
pub open spec fn row_inv_std<S: Scalar>(x: Seq<S>, r: int, dim: nat, eps: S) -> S {
    let var = S::quotient(
        range_deviation(x, r * dim, dim, row_mean(x, r, dim)),
        S::count_value(dim),
    );
    S::quotient(one(), S::root(S::sum(var, eps)))
}

/// Every row normalized, scaled by `gamma` and shifted by `beta`.
pub open spec fn normalized_rows<S: Scalar>(
    x: Seq<S>,
    gamma: Seq<S>,
    beta: Seq<S>,
    dim: nat,
    eps: S,
) -> Seq<S> {
    Seq::new(
        x.len(),
        |i: int|
            {
                let r = i / dim as int;
                let d = i % dim as int;
                S::sum(
                    S::product(
                        S::product(
                            S::difference(x[i], row_mean(x, r, dim)),
                            row_inv_std(x, r, dim, eps),
                        ),
                        gamma[d],
                    ),
                    beta[d],
                )
            },
    )
}

/// Normalizes every row.
pub fn layer_norm<S: Scalar>(
    input: &Vec<S>,
    gamma: &Vec<S>,
    beta: &Vec<S>,
    dim: usize,
    eps: &S,
) -> (output: Vec<S>)
    requires
        dim > 0,
        input@.len() % dim as nat == 0,
        gamma@.len() >= dim,
        beta@.len() >= dim,
    ensures
        output@ == normalized_rows(input@, gamma@, beta@, dim as nat, *eps),
{
    let size: usize = input.len();
    let seq: usize = size / dim;
    let ghost want = normalized_rows(input@, gamma@, beta@, dim as nat, *eps);
    proof {
        vstd::arithmetic::div_mod::lemma_fundamental_div_mod(size as int, dim as int);
        assert(seq * dim == dim * seq) by (nonlinear_arith);
        lemma_next_row(0, dim as int);
    }
    let count = S::from_count(dim);
    let mut output: Vec<S> = Vec::new();
    for s in 0..seq
        invariant
            dim > 0,
            size == input@.len(),
            seq * dim == size,
            gamma@.len() >= dim,
            beta@.len() >= dim,
            count == S::count_value(dim as nat),
            want == normalized_rows(input@, gamma@, beta@, dim as nat, *eps),
            output@ == want.take(s * dim),
    {
        proof {
            lemma_cell(s as int, seq as int, 0, dim as int);
            lemma_next_row(s as int, dim as int);
        }
        let start: usize = s * dim;
        let mut total = S::constant(Constant::Zero);
        for d in 0..dim
            invariant
                size == input@.len(),
                start + dim <= size,
                total == range_sum(input@, start as int, d as nat),
        {
            total = total.plus(&input[start + d]);
        }
        let mean = total.over(&count);
        let mut spread = S::constant(Constant::Zero);
        for d in 0..dim
            invariant
                size == input@.len(),
                start + dim <= size,
                spread == range_deviation(input@, start as int, d as nat, mean),
        {
            let diff = input[start + d].minus(&mean);
            spread = spread.plus(&diff.times(&diff));
        }
        let var = spread.over(&count);
        let inv_std = S::constant(Constant::One).over(&var.plus(eps).sqrt());
        assert(mean == row_mean(input@, s as int, dim as nat));
        assert(inv_std == row_inv_std(input@, s as int, dim as nat, *eps));
        for d in 0..dim
            invariant
                0 <= s < seq,
                size == input@.len(),
                seq * dim == size,
                start == s * dim,
                start + dim <= size,
                gamma@.len() >= dim,
                beta@.len() >= dim,
                mean == row_mean(input@, s as int, dim as nat),
                inv_std == row_inv_std(input@, s as int, dim as nat, *eps),
                want == normalized_rows(input@, gamma@, beta@, dim as nat, *eps),
                output@ == want.take(start + d),
        {
            proof {
                lemma_cell(s as int, seq as int, d as int, dim as int);
            }
            let val = input[start + d].minus(&mean).times(&inv_std).times(&gamma[d]).plus(&beta[d]);
            output.push(val);
        }
    }
    assert(output@ =~= want);
    output
}

/// Column `j` of a row-major matrix of `k` rows and `n` columns.
pub open spec fn column<S>(b: Seq<S>, k: nat, n: int, j: int) -> Seq<S> {
    Seq::new(k, |p: int| b[p * n + j])
}

/// Element `(i, j)` of a product of row-major matrices.
pub open spec fn matmul_element<S: Scalar>(
    a: Seq<S>,
    b: Seq<S>,
    k: nat,
    n: int,
    i: int,
    j: int,
) -> S {
    dot(a.subrange(i * k, i * k + k), column(b, k, n, j), k)
}

/// The product of an `m` by `k` and a `k` by `n` matrix.
pub open spec fn matmul_value<S: Scalar>(a: Seq<S>, b: Seq<S>, m: nat, k: nat, n: nat) -> Seq<S> {
    Seq::new(
        m * n,
        |x: int| matmul_element(a, b, k, n as int, x / n as int, x % n as int),
    )
}

/// Multiplies two row-major matrices.
pub fn matmul<S: Scalar>(a: &Vec<S>, b: &Vec<S>, m: usize, k: usize, n: usize) -> (c: Vec<S>)
    requires
        m * k <= a@.len(),
        k * n <= b@.len(),
        m * n <= usize::MAX,
    ensures
        c@ == matmul_value(a@, b@, m as nat, k as nat, n as nat),
{
    let a_size: usize = a.len();
    let b_size: usize = b.len();
    let ghost want = matmul_value(a@, b@, m as nat, k as nat, n as nat);
    let mut c: Vec<S> = Vec::new();
    proof {
        lemma_next_row(0, n as int);
        assert(m * n == (m as nat) * (n as nat));
    }
    for i in 0..m
        invariant
            a_size == a@.len(),
            b_size == b@.len(),
            m * k <= a_size,
            k * n <= b_size,
            m * n <= usize::MAX,
            want.len() == m * n,
            want == matmul_value(a@, b@, m as nat, k as nat, n as nat),
            c@ == want.take(i * n),
    {
        proof {
            lemma_next_row(i as int, n as int);
            assert(0 <= i * k && i * k + k <= m * k && 0 <= i * n && i * n + n <= m * n)
                by (nonlinear_arith)
                requires
                    0 <= i < m,
                    0 <= k,
                    0 <= n,
            ;
        }
        for j in 0..n
            invariant
                0 <= i < m,
                a_size == a@.len(),
                b_size == b@.len(),
                0 <= i * k,
                i * k + k <= a_size,
                k * n <= b_size,
                i * n + n <= m * n,
                want.len() == m * n,
                want == matmul_value(a@, b@, m as nat, k as nat, n as nat),
                c@ == want.take(i * n + j),
        {
            let ghost ar = a@.subrange(i * k, i * k + k);
            let ghost bc = column(b@, k as nat, n as int, j as int);
            let mut sum = S::constant(Constant::Zero);
            for p in 0..k
                invariant
                    0 <= j < n,
                    a_size == a@.len(),
                    b_size == b@.len(),
                    0 <= i * k,
                    i * k + k <= a_size,
                    k * n <= b_size,
                    ar == a@.subrange(i * k, i * k + k),
                    bc == column(b@, k as nat, n as int, j as int),
                    sum == dot(ar, bc, p as nat),
            {
                proof {
                    lemma_cell(p as int, k as int, j as int, n as int);
                }
                sum = sum.plus(&a[i * k + p].times(&b[p * n + j]));
            }
            proof {
                lemma_cell(i as int, m as int, j as int, n as int);
            }
            c.push(sum);
        }
    }
    assert(c@ =~= want);
    c
}

/// A matrix with `bias` added to every row.
pub open spec fn biased<S: Scalar>(x: Seq<S>, bias: Seq<S>, dim: int) -> Seq<S> {
    Seq::new(x.len(), |i: int| S::sum(x[i], bias[i % dim]))
}

/// Adds `bias` to every row.
pub fn add_bias<S: Scalar>(data: &mut Vec<S>, bias: &Vec<S>, dim: usize)
    requires
        dim > 0,
        old(data)@.len() % dim as nat == 0,
        bias@.len() >= dim,
    ensures
        final(data)@ == biased(old(data)@, bias@, dim as int),
{
    let ghost before = data@;
    let size: usize = data.len();
    for i in 0..size
        invariant
            size == before.len(),
            dim > 0,
            bias@.len() >= dim,
            data@.len() == before.len(),
            forall|j: int|
                0 <= j < before.len() ==> #[trigger] data@[j] == if j < i {
                    S::sum(before[j], bias@[j % dim as int])
                } else {
                    before[j]
                },
    {
        let val = data[i].plus(&bias[i % dim]);
        data.set(i, val);
    }
    assert(data@ =~= biased(before, bias@, dim as int));
}

/// Two vectors added element by element.
pub open spec fn added<S: Scalar>(a: Seq<S>, b: Seq<S>) -> Seq<S> {
    Seq::new(a.len(), |i: int| S::sum(a[i], b[i]))
}

/// Adds a vector to another.
pub fn add_residual<S: Scalar>(a: &mut Vec<S>, b: &Vec<S>)
    requires
        old(a)@.len() <= b@.len(),
    ensures
        final(a)@ == added(old(a)@, b@),
{
    let ghost before = a@;
    let size: usize = a.len();
    for i in 0..size
        invariant
            size == before.len(),
            size <= b@.len(),
            a@.len() == before.len(),
            forall|j: int|
                0 <= j < before.len() ==> #[trigger] a@[j] == if j < i {
                    S::sum(before[j], b@[j])
                } else {
                    before[j]
                },
    {
        let val = a[i].plus(&b[i]);
        a.set(i, val);
    }
    assert(a@ =~= added(before, b@));
}

/// The activation of an element, with the hyperbolic tangent.
pub open spec fn gelu_of<S: Scalar>(x: S) -> S {
    let cube = S::product(
        S::product(S::product(S::constant_value(Constant::GeluCoefficient), x), x),
        x,
    );
    let inner = S::product(S::constant_value(Constant::GeluScale), S::sum(x, cube));
    S::product(
        S::product(x, S::constant_value(Constant::Half)),
        S::sum(one(), S::hyperbolic_tangent(inner)),
    )
}

/// The activation of an element.
pub fn gelu<S: Scalar>(x: &S) -> (r: S)
    ensures
        r == gelu_of(*x),
{
    let cube = S::constant(Constant::GeluCoefficient).times(x).times(x).times(x);
    let inner = S::constant(Constant::GeluScale).times(&x.plus(&cube));
    x.times(&S::constant(Constant::Half)).times(&S::constant(Constant::One).plus(&inner.tanh()))
}

/// The activation of every element.
pub open spec fn activated<S: Scalar>(x: Seq<S>) -> Seq<S> {
    Seq::new(x.len(), |i: int| gelu_of(x[i]))
}

/// Applies the activation to every element.
pub fn activate<S: Scalar>(x: &mut Vec<S>)
    ensures
        final(x)@ == activated(old(x)@),
{
    let ghost before = x@;
    let size: usize = x.len();
    for i in 0..size
        invariant
            size == before.len(),
            x@.len() == before.len(),
            forall|j: int|
                0 <= j < before.len() ==> #[trigger] x@[j] == if j < i {
                    gelu_of(before[j])
                } else {
                    before[j]
                },
    {
        let val = gelu(&x[i]);
        x.set(i, val);
    }
    assert(x@ =~= activated(before));
}

/// The queries (`part` 0), keys (1) or values (2) of head `h`, cut out of the joint
/// projection.
pub open spec fn head_part<S>(qkv: Seq<S>, part: int, h: int, seq: nat, shape: Shape) -> Seq<S> {
    Seq::new(
        seq * (shape.d_head as nat),
        |x: int|
            qkv[(x / shape.d_head as int) * (3 * shape.d_model) + part * shape.d_model + h
                * shape.d_head + x % shape.d_head as int],
    )
}

fn cut_head<S: Scalar>(qkv: &Vec<S>, part: usize, h: usize, seq: usize, shape: &Shape) -> (r: Vec<S>)
    requires
        shape.wf(),
        part < 3,
        h < shape.n_heads,
        seq * (3 * shape.d_model) <= qkv@.len(),
    ensures
        r@ == head_part(qkv@, part as int, h as int, seq as nat, *shape),
{
    let size: usize = qkv.len();
    let dh: usize = shape.d_head;
    let dm: usize = shape.d_model;
    let ghost want = head_part(qkv@, part as int, h as int, seq as nat, *shape);
    let mut r: Vec<S> = Vec::new();
    proof {
        lemma_next_row(0, dh as int);
    }
    for s in 0..seq
        invariant
            shape.wf(),
            dh == shape.d_head,
            dm == shape.d_model,
            part < 3,
            h < shape.n_heads,
            size == qkv@.len(),
            seq * (3 * dm) <= size,
            want.len() == seq * dh,
            want == head_part(qkv@, part as int, h as int, seq as nat, *shape),
            r@ == want.take(s * dh),
    {
        proof {
            lemma_next_row(s as int, dh as int);
            lemma_cell(s as int, seq as int, 0, 3 * dm);
            lemma_cell(h as int, shape.n_heads as int, 0, dh as int);
            assert(0 <= part * dm && part * dm + dm <= 3 * dm) by (nonlinear_arith)
                requires
                    0 <= part < 3,
                    0 <= dm,
            ;
        }
        let start: usize = s * (3 * dm) + part * dm + h * dh;
        for d in 0..dh
            invariant
                0 <= s < seq,
                dh == shape.d_head,
                dm == shape.d_model,
                size == qkv@.len(),
                start + dh <= size,
                start == s * (3 * dm) + part * dm + h * dh,
                want.len() == seq * dh,
                want == head_part(qkv@, part as int, h as int, seq as nat, *shape),
                r@ == want.take(s * dh + d),
        {
            proof {
                lemma_cell(s as int, seq as int, d as int, dh as int);
            }
            r.push(qkv[start + d].dup());
        }
    }
    assert(r@ =~= want);
    r
}

/// The factor of the scores.
pub open spec fn scale_value<S: Scalar>(d_head: nat) -> S {
    S::quotient(one(), S::root(S::count_value(d_head)))
}

/// The scores of a head: position `i` attends to `j` only if `j <= i`.
pub open spec fn causal_scores<S: Scalar>(q: Seq<S>, k: Seq<S>, seq: nat, d_head: nat) -> Seq<S> {
    Seq::new(
        seq * seq,
        |x: int|
            {
                let i = x / seq as int;
                let j = x % seq as int;
                if j <= i {
                    S::product(
                        dot(
                            q.subrange(i * d_head, i * d_head + d_head),
                            k.subrange(j * d_head, j * d_head + d_head),
                            d_head,
                        ),
                        scale_value(d_head),
                    )
                } else {
                    S::constant_value(Constant::NegInfinity)
                }
            },
    )
}

/// The greatest of the first `n` elements from `start` on.
pub open spec fn range_max<S: Scalar>(x: Seq<S>, start: int, n: nat) -> S
    decreases n,
{
    if n == 0 {
        S::constant_value(Constant::NegInfinity)
    } else {
        S::maximum(range_max(x, start, (n - 1) as nat), x[start + n - 1])
    }
}

/// The exponentials of row `i` relative to its greatest element.
pub open spec fn row_exponentials<S: Scalar>(x: Seq<S>, i: int, n: nat) -> Seq<S> {
    let max = range_max(x, i * n, n);
    Seq::new(n, |j: int| S::exponential(S::difference(x[i * n + j], max)))
}

/// The softmax of every row of a square matrix.
pub open spec fn softmax_rows<S: Scalar>(x: Seq<S>, n: nat) -> Seq<S> {
    Seq::new(
        n * n,
        |y: int|
            {
                let e = row_exponentials(x, y / n as int, n);
                S::quotient(e[y % n as int], range_sum(e, 0, n))
            },
    )
}

fn score_matrix<S: Scalar>(q: &Vec<S>, k: &Vec<S>, seq: usize, d_head: usize) -> (r: Vec<S>)
    requires
        d_head > 0,
        seq * d_head <= q@.len(),
        seq * d_head <= k@.len(),
        seq * seq <= usize::MAX,
    ensures
        r@ == causal_scores(q@, k@, seq as nat, d_head as nat),
{
    let q_size: usize = q.len();
    let k_size: usize = k.len();
    let scale = S::constant(Constant::One).over(&S::from_count(d_head).sqrt());
    let ghost want = causal_scores(q@, k@, seq as nat, d_head as nat);
    let mut r: Vec<S> = Vec::new();
    proof {
        lemma_next_row(0, seq as int);
    }
    for i in 0..seq
        invariant
            d_head > 0,
            q_size == q@.len(),
            k_size == k@.len(),
            seq * d_head <= q_size,
            seq * d_head <= k_size,
            seq * seq <= usize::MAX,
            scale == scale_value::<S>(d_head as nat),
            want.len() == seq * seq,
            want == causal_scores(q@, k@, seq as nat, d_head as nat),
            r@ == want.take(i * seq),
    {
        proof {
            lemma_next_row(i as int, seq as int);
            lemma_cell(i as int, seq as int, 0, d_head as int);
            lemma_cell(i as int, seq as int, 0, seq as int);
        }
        for j in 0..seq
            invariant
                0 <= i < seq,
                d_head > 0,
                q_size == q@.len(),
                k_size == k@.len(),
                0 <= i * d_head,
                i * d_head + d_head <= q_size,
                seq * d_head <= k_size,
                i * seq + seq <= seq * seq,
                scale == scale_value::<S>(d_head as nat),
                want.len() == seq * seq,
                want == causal_scores(q@, k@, seq as nat, d_head as nat),
                r@ == want.take(i * seq + j),
        {
            proof {
                lemma_cell(i as int, seq as int, j as int, seq as int);
                lemma_cell(j as int, seq as int, 0, d_head as int);
            }
            if j <= i {
                let ghost qr = q@.subrange(i * d_head, i * d_head + d_head);
                let ghost kr = k@.subrange(j * d_head, j * d_head + d_head);
                let mut sum = S::constant(Constant::Zero);
                for d in 0..d_head
                    invariant
                        q_size == q@.len(),
                        k_size == k@.len(),
                        0 <= i * d_head,
                        i * d_head + d_head <= q_size,
                        0 <= j * d_head,
                        j * d_head + d_head <= k_size,
                        qr == q@.subrange(i * d_head, i * d_head + d_head),
                        kr == k@.subrange(j * d_head, j * d_head + d_head),
                        sum == dot(qr, kr, d as nat),
                {
                    sum = sum.plus(&q[i * d_head + d].times(&k[j * d_head + d]));
                }
                r.push(sum.times(&scale));
            } else {
                r.push(S::constant(Constant::NegInfinity));
            }
        }
    }
    assert(r@ =~= want);
    r
}

fn softmax_matrix<S: Scalar>(x: &Vec<S>, n: usize) -> (r: Vec<S>)
    requires
        x@.len() == n * n,
    ensures
        r@ == softmax_rows(x@, n as nat),
{
    let size: usize = x.len();
    let ghost want = softmax_rows(x@, n as nat);
    let mut r: Vec<S> = Vec::new();
    proof {
        lemma_next_row(0, n as int);
    }
    for i in 0..n
        invariant
            size == x@.len(),
            size == n * n,
            want.len() == n * n,
            want == softmax_rows(x@, n as nat),
            r@ == want.take(i * n),
    {
        proof {
            lemma_next_row(i as int, n as int);
            lemma_cell(i as int, n as int, 0, n as int);
        }
        let start: usize = i * n;
        let mut max_val = S::constant(Constant::NegInfinity);
        for j in 0..n
            invariant
                size == x@.len(),
                start + n <= size,
                max_val == range_max(x@, start as int, j as nat),
        {
            max_val = max_val.larger(&x[start + j]);
        }
        let ghost e = row_exponentials(x@, i as int, n as nat);
        let mut exps: Vec<S> = Vec::new();
        let mut sum = S::constant(Constant::Zero);
        for j in 0..n
            invariant
                size == x@.len(),
                start == i * n,
                start + n <= size,
                max_val == range_max(x@, start as int, n as nat),
                e == row_exponentials(x@, i as int, n as nat),
                exps@ == e.take(j as int),
                sum == range_sum(e, 0, j as nat),
        {
            let v = x[start + j].minus(&max_val).exp();
            sum = sum.plus(&v);
            exps.push(v);
        }
        for j in 0..n
            invariant
                0 <= i < n,
                start == i * n,
                want.len() == n * n,
                want == softmax_rows(x@, n as nat),
                e == row_exponentials(x@, i as int, n as nat),
                exps@ == e,
                sum == range_sum(e, 0, n as nat),
                i * n + n <= n * n,
                r@ == want.take(start + j),
        {
            proof {
                lemma_cell(i as int, n as int, j as int, n as int);
            }
            r.push(exps[j].over(&sum));
        }
    }
    assert(r@ =~= want);
    r
}

/// What head `h` makes of the joint projection.
pub open spec fn head_output<S: Scalar>(qkv: Seq<S>, h: int, seq: nat, shape: Shape) -> Seq<S> {
    let q = head_part(qkv, 0, h, seq, shape);
    let k = head_part(qkv, 1, h, seq, shape);
    let v = head_part(qkv, 2, h, seq, shape);
    let d_head = shape.d_head as nat;
    matmul_value(softmax_rows(causal_scores(q, k, seq, d_head), seq), v, seq, seq, d_head)
}

/// The heads' outputs side by side in every row.
pub open spec fn attention_value<S: Scalar>(qkv: Seq<S>, seq: nat, shape: Shape) -> Seq<S> {
    Seq::new(
        seq * (shape.d_model as nat),
        |x: int|
            {
                let s = x / shape.d_model as int;
                let c = x % shape.d_model as int;
                let h = c / shape.d_head as int;
                let d = c % shape.d_head as int;
                head_output(qkv, h, seq, shape)[s * shape.d_head + d]
            },
    )
}

/// Causal attention of all heads.
pub fn attention<S: Scalar>(qkv: &Vec<S>, seq: usize, shape: &Shape) -> (r: Vec<S>)
    requires
        shape.wf(),
        seq * (3 * shape.d_model) <= qkv@.len(),
        seq * seq <= usize::MAX,
    ensures
        r@ == attention_value(qkv@, seq as nat, *shape),
{
    let dh: usize = shape.d_head;
    let dm: usize = shape.d_model;
    let nh: usize = shape.n_heads;
    let qkv_size: usize = qkv.len();
    let ghost want = attention_value(qkv@, seq as nat, *shape);
    proof {
        assert(seq * dm <= seq * (3 * dm)) by (nonlinear_arith)
            requires
                0 <= seq,
                0 <= dm,
        ;
        assert(dh <= dm) by (nonlinear_arith)
            requires
                nh * dh == dm,
                dm > 0,
                dh > 0,
                nh >= 0,
        ;
        assert(seq * dh <= seq * dm) by (nonlinear_arith)
            requires
                0 <= seq,
                dh <= dm,
        ;
    }
    let mut heads: Vec<Vec<S>> = Vec::new();
    for h in 0..nh
        invariant
            shape.wf(),
            dh == shape.d_head,
            dm == shape.d_model,
            nh == shape.n_heads,
            seq * (3 * dm) <= qkv@.len(),
            seq * seq <= usize::MAX,
            seq * dh <= usize::MAX,
            heads@.len() == h,
            forall|g: int|
                0 <= g < h ==> (#[trigger] heads@[g])@ == head_output(qkv@, g, seq as nat, *shape),
    {
        let q: Vec<S> = cut_head(qkv, 0, h, seq, shape);
        let k: Vec<S> = cut_head(qkv, 1, h, seq, shape);
        let v: Vec<S> = cut_head(qkv, 2, h, seq, shape);
        let scores: Vec<S> = score_matrix(&q, &k, seq, dh);
        let probs: Vec<S> = softmax_matrix(&scores, seq);
        heads.push(matmul(&probs, &v, seq, seq, dh));
    }
    let mut r: Vec<S> = Vec::new();
    proof {
        lemma_next_row(0, dm as int);
    }
    for s in 0..seq
        invariant
            shape.wf(),
            dh == shape.d_head,
            dm == shape.d_model,
            nh == shape.n_heads,
            nh * dh == dm,
            heads@.len() == nh,
            seq * dm <= usize::MAX,
            forall|g: int|
                0 <= g < nh ==> (#[trigger] heads@[g])@ == head_output(qkv@, g, seq as nat, *shape),
            want.len() == seq * dm,
            want == attention_value(qkv@, seq as nat, *shape),
            r@ == want.take(s * dm),
    {
        proof {
            lemma_next_row(s as int, dm as int);
            lemma_cell(s as int, seq as int, 0, dm as int);
            lemma_next_row(0, dh as int);
        }
        for h in 0..nh
            invariant
                0 <= s < seq,
                shape.wf(),
                dh == shape.d_head,
                dm == shape.d_model,
                nh == shape.n_heads,
                nh * dh == dm,
                heads@.len() == nh,
                s * dm + dm <= seq * dm <= usize::MAX,
                forall|g: int|
                    0 <= g < nh ==> (#[trigger] heads@[g])@ == head_output(
                        qkv@,
                        g,
                        seq as nat,
                        *shape,
                    ),
                want.len() == seq * dm,
                want == attention_value(qkv@, seq as nat, *shape),
                r@ == want.take(s * dm + h * dh),
        {
            proof {
                lemma_next_row(h as int, dh as int);
                lemma_cell(h as int, nh as int, 0, dh as int);
                lemma_cell(s as int, seq as int, 0, dh as int);
            }
            for d in 0..dh
                invariant
                    0 <= s < seq,
                    0 <= h < nh,
                    shape.wf(),
                    dh == shape.d_head,
                    dm == shape.d_model,
                    nh * dh == dm,
                    nh == shape.n_heads,
                    heads@.len() == nh,
                    heads@[h as int]@ == head_output(qkv@, h as int, seq as nat, *shape),
                    s * dm + dm <= seq * dm <= usize::MAX,
                    h * dh + dh <= dm,
                    want.len() == seq * dm,
                    want == attention_value(qkv@, seq as nat, *shape),
                    r@ == want.take(s * dm + h * dh + d),
            {
                proof {
                    lemma_cell(h as int, nh as int, d as int, dh as int);
                    lemma_cell(s as int, seq as int, h * dh + d, dm as int);
                    lemma_cell(s as int, seq as int, d as int, dh as int);
                    assert(seq * dh <= seq * dm) by (nonlinear_arith)
                        requires
                            0 <= seq,
                            dh <= dm,
                    ;
                }
                r.push(heads[h][s * dh + d].dup());
            }
        }
    }
    assert(r@ =~= want);
    r
}

/// The weights of one layer.
pub struct LayerWeights<S> {
    pub ln_1_weight: Vec<S>,
    pub ln_1_bias: Vec<S>,
    pub c_attn_weight: Vec<S>,
    pub c_attn_bias: Vec<S>,
    pub c_proj_weight: Vec<S>,
    pub c_proj_bias: Vec<S>,
    pub ln_2_weight: Vec<S>,
    pub ln_2_bias: Vec<S>,
    pub mlp_fc_weight: Vec<S>,
    pub mlp_fc_bias: Vec<S>,
    pub mlp_proj_weight: Vec<S>,
    pub mlp_proj_bias: Vec<S>,
}

impl<S: Scalar> LayerWeights<S> {
    /// Every tensor has the size that the transformer's shape asks for.
    pub open spec fn wf(&self, shape: Shape) -> bool {
        let (dm, df) = (shape.d_model as int, shape.d_ffn as int);
        &&& self.ln_1_weight@.len() == dm
        &&& self.ln_1_bias@.len() == dm
        &&& self.c_attn_weight@.len() == dm * (3 * dm)
        &&& self.c_attn_bias@.len() == 3 * dm
        &&& self.c_proj_weight@.len() == dm * dm
        &&& self.c_proj_bias@.len() == dm
        &&& self.ln_2_weight@.len() == dm
        &&& self.ln_2_bias@.len() == dm
        &&& self.mlp_fc_weight@.len() == dm * df
        &&& self.mlp_fc_bias@.len() == df
        &&& self.mlp_proj_weight@.len() == df * dm
        &&& self.mlp_proj_bias@.len() == dm
    }
}

/// What the attention half of a layer adds to the hidden state.
pub open spec fn attention_branch<S: Scalar>(
    hidden: Seq<S>,
    w: LayerWeights<S>,
    shape: Shape,
    seq: nat,
    eps: S,
) -> Seq<S> {
    let dm = shape.d_model as nat;
    let ln = normalized_rows(hidden, w.ln_1_weight@, w.ln_1_bias@, dm, eps);
    let qkv = biased(
        matmul_value(ln, w.c_attn_weight@, seq, dm, 3 * dm),
        w.c_attn_bias@,
        3 * dm as int,
    );
    biased(
        matmul_value(attention_value(qkv, seq, shape), w.c_proj_weight@, seq, dm, dm),
        w.c_proj_bias@,
        dm as int,
    )
}

/// What the feed-forward half of a layer adds to the hidden state.
pub open spec fn feed_forward_branch<S: Scalar>(
    hidden: Seq<S>,
    w: LayerWeights<S>,
    shape: Shape,
    seq: nat,
    eps: S,
) -> Seq<S> {
    let dm = shape.d_model as nat;
    let df = shape.d_ffn as nat;
    let ln = normalized_rows(hidden, w.ln_2_weight@, w.ln_2_bias@, dm, eps);
    let up = biased(matmul_value(ln, w.mlp_fc_weight@, seq, dm, df), w.mlp_fc_bias@, df as int);
    biased(
        matmul_value(activated(up), w.mlp_proj_weight@, seq, df, dm),
        w.mlp_proj_bias@,
        dm as int,
    )
}

/// A hidden state in which the rows from `rows` on are zero.
pub open spec fn cleared<S: Scalar>(x: Seq<S>, rows: int, dim: int) -> Seq<S> {
    Seq::new(
        x.len(),
        |i: int|
            if i < rows * dim {
                x[i]
            } else {
                zero()
            },
    )
}

/// The hidden state between the two halves of a layer.
pub open spec fn middle_value<S: Scalar>(
    hidden: Seq<S>,
    w: LayerWeights<S>,
    shape: Shape,
    seq: nat,
    rows: int,
    eps: S,
) -> Seq<S> {
    cleared(
        added(hidden, attention_branch(hidden, w, shape, seq, eps)),
        rows,
        shape.d_model as int,
    )
}

/// The hidden state after a layer. The rows from `rows` on are padding and are cleared
/// after each half.
pub open spec fn layer_value<S: Scalar>(
    hidden: Seq<S>,
    w: LayerWeights<S>,
    shape: Shape,
    seq: nat,
    rows: int,
    eps: S,
) -> Seq<S> {
    let mid = middle_value(hidden, w, shape, seq, rows, eps);
    cleared(
        added(mid, feed_forward_branch(mid, w, shape, seq, eps)),
        rows,
        shape.d_model as int,
    )
}

fn clear_rows<S: Scalar>(x: &mut Vec<S>, rows: usize, dim: usize)
    requires
        rows * dim <= old(x)@.len(),
    ensures
        final(x)@ == cleared(old(x)@, rows as int, dim as int),
{
    let ghost before = x@;
    let size: usize = x.len();
    let start: usize = rows * dim;
    for i in start..size
        invariant
            size == before.len(),
            start <= size,
            x@.len() == before.len(),
            forall|j: int|
                0 <= j < before.len() ==> #[trigger] x@[j] == if start <= j < i {
                    zero()
                } else {
                    before[j]
                },
    {
        x.set(i, S::constant(Constant::Zero));
    }
    assert(x@ =~= cleared(before, rows as int, dim as int));
}

proof fn lemma_rows_divide(seq: int, dim: int)
    requires
        0 <= seq,
        0 < dim,
    ensures
        (seq * dim) % dim == 0,
{
    vstd::arithmetic::div_mod::lemma_mod_multiples_basic(seq, dim);
}

/// The sizes of a pass over `seq` positions can be expressed.
pub open spec fn pass_fits(shape: Shape, seq: usize) -> bool {
    &&& seq * (3 * shape.d_model) <= usize::MAX
    &&& seq * shape.d_ffn <= usize::MAX
    &&& seq * seq <= usize::MAX
}

/// Runs one layer over the hidden state. What its two halves added is given back.
pub fn run_layer<S: Scalar>(
    hidden: &mut Vec<S>,
    w: &LayerWeights<S>,
    shape: &Shape,
    seq: usize,
    rows: usize,
    eps: &S,
) -> (r: (Vec<S>, Vec<S>))
    requires
        shape.wf(),
        w.wf(*shape),
        pass_fits(*shape, seq),
        rows <= seq,
        old(hidden)@.len() == seq * shape.d_model,
    ensures
        final(hidden)@ == layer_value(old(hidden)@, *w, *shape, seq as nat, rows as int, *eps),
        final(hidden)@.len() == seq * shape.d_model,
        r.0@ == attention_branch(old(hidden)@, *w, *shape, seq as nat, *eps),
        r.1@ == feed_forward_branch(
            middle_value(old(hidden)@, *w, *shape, seq as nat, rows as int, *eps),
            *w,
            *shape,
            seq as nat,
            *eps,
        ),
{
    let ghost start = hidden@;
    let dm: usize = shape.d_model;
    let df: usize = shape.d_ffn;
    proof {
        lemma_rows_divide(seq as int, dm as int);
        lemma_rows_divide(seq as int, 3 * dm);
        lemma_rows_divide(seq as int, df as int);
        assert(seq * dm <= seq * (3 * dm)) by (nonlinear_arith)
            requires
                0 <= seq,
                0 <= dm,
        ;
        assert(rows * dm <= seq * dm) by (nonlinear_arith)
            requires
                0 <= rows <= seq,
                0 <= dm,
        ;
        assert(seq * (3 * dm) == (seq as nat) * ((3 * dm) as nat));
    }
    let ln_out: Vec<S> = layer_norm(hidden, &w.ln_1_weight, &w.ln_1_bias, dm, eps);
    let mut qkv: Vec<S> = matmul(&ln_out, &w.c_attn_weight, seq, dm, 3 * dm);
    add_bias(&mut qkv, &w.c_attn_bias, 3 * dm);
    let joined: Vec<S> = attention(&qkv, seq, shape);
    let mut proj: Vec<S> = matmul(&joined, &w.c_proj_weight, seq, dm, dm);
    add_bias(&mut proj, &w.c_proj_bias, dm);
    assert(proj@ == attention_branch(start, *w, *shape, seq as nat, *eps));
    add_residual(hidden, &proj);
    clear_rows(hidden, rows, dm);
    let ghost mid = hidden@;
    let ln2_out: Vec<S> = layer_norm(hidden, &w.ln_2_weight, &w.ln_2_bias, dm, eps);
    let mut ffn: Vec<S> = matmul(&ln2_out, &w.mlp_fc_weight, seq, dm, df);
    add_bias(&mut ffn, &w.mlp_fc_bias, df);
    activate(&mut ffn);
    let mut ffn_out: Vec<S> = matmul(&ffn, &w.mlp_proj_weight, seq, df, dm);
    add_bias(&mut ffn_out, &w.mlp_proj_bias, dm);
    assert(ffn_out@ == feed_forward_branch(mid, *w, *shape, seq as nat, *eps));
    add_residual(hidden, &ffn_out);
    clear_rows(hidden, rows, dm);
    (proj, ffn_out)
}

/// The embedded tokens in the first rows, and zeros in the rows behind them.
pub open spec fn embedded_tokens<S: Scalar>(
    tokens: Seq<u32>,
    wte: Seq<S>,
    wpe: Seq<S>,
    dim: int,
    rows: nat,
) -> Seq<S> {
    Seq::new(
        rows * (dim as nat),
        |i: int|
            {
                let pos = i / dim;
                let d = i % dim;
                if pos < tokens.len() {
                    S::sum(wte[tokens[pos] * dim + d], wpe[pos * dim + d])
                } else {
                    zero()
                }
            },
    )
}

/// The tables hold a row for every token and every position.
pub open spec fn tables_cover<S>(tokens: Seq<u32>, wte: Seq<S>, wpe: Seq<S>, dim: int) -> bool {
    &&& forall|p: int| 0 <= p < tokens.len() ==> (#[trigger] tokens[p] + 1) * dim <= wte.len()
    &&& tokens.len() * dim <= wpe.len()
}

/// Embeds the tokens into a hidden state of `rows` rows.
pub fn embed<S: Scalar>(
    tokens: &Vec<u32>,
    wte: &Vec<S>,
    wpe: &Vec<S>,
    dim: usize,
    rows: usize,
) -> (r: Vec<S>)
    requires
        dim > 0,
        tokens@.len() <= rows,
        rows * dim <= usize::MAX,
        tables_cover(tokens@, wte@, wpe@, dim as int),
    ensures
        r@ == embedded_tokens(tokens@, wte@, wpe@, dim as int, rows as nat),
{
    let wte_size: usize = wte.len();
    let wpe_size: usize = wpe.len();
    let n: usize = tokens.len();
    let ghost want = embedded_tokens(tokens@, wte@, wpe@, dim as int, rows as nat);
    let mut r: Vec<S> = Vec::new();
    proof {
        lemma_next_row(0, dim as int);
    }
    for pos in 0..rows
        invariant
            dim > 0,
            n == tokens@.len(),
            n <= rows,
            rows * dim <= usize::MAX,
            wte_size == wte@.len(),
            wpe_size == wpe@.len(),
            tables_cover(tokens@, wte@, wpe@, dim as int),
            want.len() == rows * dim,
            want == embedded_tokens(tokens@, wte@, wpe@, dim as int, rows as nat),
            r@ == want.take(pos * dim),
    {
        proof {
            lemma_next_row(pos as int, dim as int);
            lemma_cell(pos as int, rows as int, 0, dim as int);
        }
        for d in 0..dim
            invariant
                0 <= pos < rows,
                n == tokens@.len(),
                wte_size == wte@.len(),
                wpe_size == wpe@.len(),
                tables_cover(tokens@, wte@, wpe@, dim as int),
                pos * dim + dim <= rows * dim <= usize::MAX,
                want.len() == rows * dim,
                want == embedded_tokens(tokens@, wte@, wpe@, dim as int, rows as nat),
                r@ == want.take(pos * dim + d),
        {
            proof {
                lemma_cell(pos as int, rows as int, d as int, dim as int);
            }
            if pos < n {
                let tok: usize = tokens[pos] as usize;
                proof {
                    assert((tokens@[pos as int] + 1) * dim <= wte@.len());
                    lemma_cell(tok as int, tok + 1, d as int, dim as int);
                    lemma_cell(pos as int, n as int, d as int, dim as int);
                }
                r.push(wte[tok * dim + d].plus(&wpe[pos * dim + d]));
            } else {
                r.push(S::constant(Constant::Zero));
            }
        }
    }
    assert(r@ =~= want);
    r
}

/// The hidden state after the first `n` layers.
pub open spec fn layers_value<S: Scalar>(
    hidden: Seq<S>,
    layers: Seq<LayerWeights<S>>,
    shape: Shape,
    seq: nat,
    rows: int,
    eps: S,
    n: nat,
) -> Seq<S>
    decreases n,
{
    if n == 0 {
        hidden
    } else {
        layer_value(
            layers_value(hidden, layers, shape, seq, rows, eps, (n - 1) as nat),
            layers[n - 1],
            shape,
            seq,
            rows,
            eps,
        )
    }
}

/// The whole forward pass over the tokens, in a hidden state of `seq` rows of which those
/// behind the tokens are padding: the embedding, all layers, and the final
/// normalization.
pub open spec fn forward_value<S: Scalar>(
    tokens: Seq<u32>,
    wte: Seq<S>,
    wpe: Seq<S>,
    layers: Seq<LayerWeights<S>>,
    ln_f_weight: Seq<S>,
    ln_f_bias: Seq<S>,
    shape: Shape,
    seq: nat,
    eps: S,
) -> Seq<S> {
    let dm = shape.d_model as int;
    let hidden = layers_value(
        embedded_tokens(tokens, wte, wpe, dm, seq),
        layers,
        shape,
        seq,
        tokens.len() as int,
        eps,
        layers.len(),
    );
    normalized_rows(hidden, ln_f_weight, ln_f_bias, dm as nat, eps)
}

/// Runs the forward pass.
pub fn forward<S: Scalar>(
    tokens: &Vec<u32>,
    wte: &Vec<S>,
    wpe: &Vec<S>,
    layers: &Vec<LayerWeights<S>>,
    ln_f_weight: &Vec<S>,
    ln_f_bias: &Vec<S>,
    shape: &Shape,
    seq: usize,
    eps: &S,
) -> (r: Vec<S>)
    requires
        shape.wf(),
        pass_fits(*shape, seq),
        tokens@.len() <= seq,
        tables_cover(tokens@, wte@, wpe@, shape.d_model as int),
        forall|l: int| 0 <= l < layers@.len() ==> (#[trigger] layers@[l]).wf(*shape),
        ln_f_weight@.len() >= shape.d_model,
        ln_f_bias@.len() >= shape.d_model,
    ensures
        r@ == forward_value(
            tokens@,
            wte@,
            wpe@,
            layers@,
            ln_f_weight@,
            ln_f_bias@,
            *shape,
            seq as nat,
            *eps,
        ),
{
    let dm: usize = shape.d_model;
    let rows: usize = tokens.len();
    proof {
        assert(seq * dm <= seq * (3 * dm)) by (nonlinear_arith)
            requires
                0 <= seq,
                0 <= dm,
        ;
        lemma_rows_divide(seq as int, dm as int);
    }
    let mut hidden: Vec<S> = embed(tokens, wte, wpe, dm, seq);
    let ghost start = hidden@;
    for l in 0..layers.len()
        invariant
            shape.wf(),
            dm == shape.d_model,
            pass_fits(*shape, seq),
            rows <= seq,
            forall|l: int| 0 <= l < layers@.len() ==> (#[trigger] layers@[l]).wf(*shape),
            hidden@.len() == seq * dm,
            hidden@ == layers_value(
                start,
                layers@,
                *shape,
                seq as nat,
                rows as int,
                *eps,
                l as nat,
            ),
    {
        let _branches = run_layer(&mut hidden, &layers[l], shape, seq, rows, eps);
    }
    layer_norm(&hidden, ln_f_weight, ln_f_bias, dm, eps)
}

/// The scores of all tokens for the hidden vector in row `pos`: its product with each row
/// of the token table.
pub open spec fn logits_value<S: Scalar>(
    hidden: Seq<S>,
    pos: int,
    wte: Seq<S>,
    dim: nat,
    vocab: nat,
) -> Seq<S> {
    Seq::new(
        vocab,
        |v: int|
            dot(
                hidden.subrange(pos * dim, pos * dim + dim),
                wte.subrange(v * dim, v * dim + dim),
                dim,
            ),
    )
}

/// Computes the scores of all tokens for the hidden vector in row `pos`.
pub fn logits<S: Scalar>(hidden: &Vec<S>, pos: usize, wte: &Vec<S>, dim: usize, vocab: usize) -> (r:
    Vec<S>)
    requires
        (pos + 1) * dim <= hidden@.len(),
        vocab * dim <= wte@.len(),
    ensures
        r@ == logits_value(hidden@, pos as int, wte@, dim as nat, vocab as nat),
{
    let h_size: usize = hidden.len();
    let w_size: usize = wte.len();
    let mut r: Vec<S> = Vec::new();
    proof {
        assert(0 <= pos * dim && pos * dim + dim == (pos + 1) * dim) by (nonlinear_arith)
            requires
                0 <= pos,
                0 <= dim,
        ;
    }
    let start: usize = pos * dim;
    let ghost hv = hidden@.subrange(start as int, start + dim);
    for v in 0..vocab
        invariant
            h_size == hidden@.len(),
            w_size == wte@.len(),
            start == pos * dim,
            start + dim <= h_size,
            vocab * dim <= w_size,
            hv == hidden@.subrange(start as int, start + dim),
            r@ == logits_value(hidden@, pos as int, wte@, dim as nat, v as nat),
    {
        proof {
            assert(0 <= v * dim && v * dim + dim <= vocab * dim) by (nonlinear_arith)
                requires
                    0 <= v < vocab,
                    0 <= dim,
            ;
        }
        let ghost wv = wte@.subrange(v * dim, v * dim + dim);
        let mut sum = S::constant(Constant::Zero);
        for d in 0..dim
            invariant
                h_size == hidden@.len(),
                w_size == wte@.len(),
                start + dim <= h_size,
                0 <= v * dim,
                v * dim + dim <= w_size,
                hv == hidden@.subrange(start as int, start + dim),
                wv == wte@.subrange(v * dim, v * dim + dim),
                sum == dot(hv, wv, d as nat),
        {
            sum = sum.plus(&hidden[start + d].times(&wte[v * dim + d]));
        }
        r.push(sum);
    }
    r
}

/// Index `a` comes before index `b` in a stable sort by descending score.
#[verifier::opaque]
pub open spec fn ranked_before<S: Scalar>(scores: Seq<S>, a: int, b: int) -> bool {
    above(scores[a], scores[b]) || (!above(scores[b], scores[a]) && a < b)
}

/// The first entries of a stable descending sort of the first `m` indices: each comes
/// before the next, and before every index that is left out.
pub open spec fn is_top_of<S: Scalar>(scores: Seq<S>, m: int, n: int, top: Seq<usize>) -> bool {
    &&& top.len() == if n < m {
        n
    } else {
        m
    }
    &&& forall|i: int| 0 <= i < top.len() ==> (#[trigger] top[i]) < m
    &&& forall|i: int, j: int|
        0 <= i < j < top.len() ==> ranked_before(
            scores,
            (#[trigger] top[i]) as int,
            (#[trigger] top[j]) as int,
        )
    &&& forall|i: int, y: usize|
        0 <= i < top.len() && y < m && !(#[trigger] top.contains(y)) ==> ranked_before(
            scores,
            (#[trigger] top[i]) as int,
            y as int,
        )
}

/// The first `n` entries of a stable descending sort of all indices.
pub open spec fn is_top<S: Scalar>(scores: Seq<S>, n: int, top: Seq<usize>) -> bool {
    is_top_of(scores, scores.len() as int, n, top)
}

/// All scores can be compared.
pub open spec fn all_ranked<S: Scalar>(scores: Seq<S>) -> bool {
    forall|i: int| 0 <= i < scores.len() ==> S::rank(#[trigger] scores[i]) is Some
}

/// The indices of the `n` greatest scores, greatest first, the lower index first among
/// equals.
pub fn top_indices<S: Scalar>(scores: &Vec<S>, n: usize) -> (top: Vec<usize>)
    requires
        all_ranked(scores@),
    ensures
        is_top(scores@, n as int, top@),
{
    let size: usize = scores.len();
    let mut top: Vec<usize> = Vec::new();
    for x in 0..size
        invariant
            size == scores@.len(),
            all_ranked(scores@),
            is_top_of(scores@, x as int, n as int, top@),
    {
        let ghost before = top@;
        let mut j: usize = top.len();
        while j > 0 && scores[x].exceeds(&scores[top[j - 1]])
            invariant
                size == scores@.len(),
                x < size,
                top@ == before,
                j <= before.len(),
                forall|i: int| 0 <= i < before.len() ==> (#[trigger] before[i]) < x,
                forall|i: int|
                    j <= i < before.len() ==> above(
                        scores@[x as int],
                        scores@[(#[trigger] before[i]) as int],
                    ),
            decreases j,
        {
            j -= 1;
        }
        if j < n {
            top.insert(j, x);
            if top.len() > n {
                top.pop();
            }
        }
        proof {
            lemma_place_of(scores@, x as int, n as int, before, j as int);
            lemma_top_step(scores@, x, n as int, before, j as int, top@);
        }
    }
    top
}

proof fn lemma_before_is_transitive<S: Scalar>(scores: Seq<S>, a: int, b: int, c: int)
    requires
        all_ranked(scores),
        0 <= a < scores.len(),
        0 <= b < scores.len(),
        0 <= c < scores.len(),
        ranked_before(scores, a, b),
        ranked_before(scores, b, c),
    ensures
        ranked_before(scores, a, c),
{
    reveal(ranked_before);
    assert(S::rank(scores[a]) is Some && S::rank(scores[b]) is Some && S::rank(scores[c]) is Some);
}

/// Entries before the new one's place come before it, and the others after it.
proof fn lemma_place_of<S: Scalar>(scores: Seq<S>, x: int, n: int, before: Seq<usize>, j: int)
    requires
        all_ranked(scores),
        0 <= x < scores.len(),
        is_top_of(scores, x, n, before),
        0 <= j <= before.len(),
        forall|i: int|
            j <= i < before.len() ==> above(scores[x], scores[(#[trigger] before[i]) as int]),
        j > 0 ==> !above(scores[x], scores[before[j - 1] as int]),
    ensures
        forall|i: int| 0 <= i < j ==> ranked_before(scores, (#[trigger] before[i]) as int, x),
        forall|i: int|
            j <= i < before.len() ==> ranked_before(scores, x, (#[trigger] before[i]) as int),
{
    if j > 0 {
        let p = before[j - 1] as int;
        assert(ranked_before(scores, p, x)) by {
            reveal(ranked_before);
            assert(S::rank(scores[p]) is Some && S::rank(scores[x]) is Some);
        }
        assert forall|i: int| 0 <= i < j implies ranked_before(
            scores,
            (#[trigger] before[i]) as int,
            x,
        ) by {
            if i < j - 1 {
                lemma_before_is_transitive(scores, before[i] as int, p, x);
            }
        }
    }
    assert forall|i: int| j <= i < before.len() implies ranked_before(
        scores,
        x,
        (#[trigger] before[i]) as int,
    ) by {
        reveal(ranked_before);
    }
}

proof fn lemma_top_step<S: Scalar>(
    scores: Seq<S>,
    x: usize,
    n: int,
    before: Seq<usize>,
    j: int,
    after: Seq<usize>,
)
    requires
        all_ranked(scores),
        x < scores.len(),
        0 <= n,
        is_top_of(scores, x as int, n, before),
        0 <= j <= before.len(),
        forall|i: int|
            0 <= i < j ==> ranked_before(scores, (#[trigger] before[i]) as int, x as int),
        forall|i: int|
            j <= i < before.len() ==> ranked_before(
                scores,
                x as int,
                (#[trigger] before[i]) as int,
            ),
        after == if j < n {
            let grown = before.insert(j, x);
            if grown.len() > n {
                grown.drop_last()
            } else {
                grown
            }
        } else {
            before
        },
    ensures
        is_top_of(scores, x + 1, n, after),
{
    if j < n {
        let grown = before.insert(j, x);
        assert(forall|i: int| 0 <= i < j ==> grown[i] == before[i]);
        assert(grown[j] == x);
        assert(forall|i: int| j < i < grown.len() ==> grown[i] == before[i - 1]);
        assert(forall|i: int| 0 <= i < after.len() ==> after[i] == grown[i]);
        assert forall|a: int, b: int| 0 <= a < b < grown.len() implies ranked_before(
            scores,
            (#[trigger] grown[a]) as int,
            (#[trigger] grown[b]) as int,
        ) by {
            if a < j && b > j {
                assert(grown[a] == before[a] && grown[b] == before[b - 1]);
            }
        }
        assert forall|i: int, y: usize|
            0 <= i < after.len() && y < x + 1 && !(#[trigger] after.contains(
                y,
            )) implies ranked_before(scores, (#[trigger] after[i]) as int, y as int) by {
            assert(after[j] == x);
            if before.contains(y) {
                let p = choose|p: int| 0 <= p < before.len() && before[p] == y;
                let gp = if p < j {
                    p
                } else {
                    p + 1
                };
                assert(grown[gp] == y);
                if gp < after.len() {
                    assert(after[gp] == y);
                }
                assert(ranked_before(scores, grown[i] as int, grown[gp] as int));
            } else if i < j {
                assert(after[i] == before[i]);
            } else if i > j {
                assert(after[i] == before[i - 1]);
            } else if j < before.len() {
                assert(ranked_before(scores, before[j] as int, y as int));
                lemma_before_is_transitive(scores, x as int, before[j] as int, y as int);
            } else {
                lemma_full_list(scores, x as int, n, before, y);
            }
        }
    } else {
        assert(before.len() == n);
        assert forall|i: int, y: usize|
            0 <= i < after.len() && y < x + 1 && !(#[trigger] after.contains(
                y,
            )) implies ranked_before(scores, (#[trigger] after[i]) as int, y as int) by {}
    }
}

/// A list with room left holds every index.
proof fn lemma_full_list<S: Scalar>(scores: Seq<S>, m: int, n: int, top: Seq<usize>, y: usize)
    requires
        is_top_of(scores, m, n, top),
        m <= scores.len(),
        top.len() < n,
        y < m,
    ensures
        top.contains(y),
{
    assert(top.len() == m);
    assert(top.no_duplicates()) by {
        assert forall|i: int, j: int| 0 <= i < j < top.len() implies top[i] != top[j] by {
            assert(ranked_before(scores, top[i] as int, top[j] as int));
            reveal(ranked_before);
        }
    }
    let s = top.to_set();
    top.unique_seq_to_set();
    let range = vstd::set_lib::set_int_range(0, m);
    vstd::set_lib::lemma_int_range(0, m);
    if !top.contains(y) {
        let widen = |i: usize| i as int;
        let t = s.map(widen);
        assert forall|a: int| #[trigger] t.contains(a) implies range.contains(a) && a != y by {
            let i = choose|i: usize| s.contains(i) && i as int == a;
            assert(top.contains(i));
            let k = choose|k: int| 0 <= k < top.len() && top[k] == i;
            assert(top[k] < m);
        }
        vstd::set_lib::lemma_map_size(s, t, widen);
        let u = t.insert(y as int);
        assert(u.subset_of(range));
        vstd::set_lib::lemma_len_subset(u, range);
    }
}

/// Where a search for the greatest score stands: the score and the index of its first
/// occurrence so far, starting below all scores at index 0.
pub open spec fn greedy<S: Scalar>(scores: Seq<S>, n: nat) -> (S, int)
    decreases n,
{
    if n == 0 {
        (S::constant_value(Constant::NegInfinity), 0)
    } else {
        let (best, at) = greedy(scores, (n - 1) as nat);
        if above(scores[n - 1], best) {
            (scores[n - 1], n - 1)
        } else {
            (best, at)
        }
    }
}

/// The token with the greatest score, the first among equals.
pub fn greedy_token<S: Scalar>(scores: &Vec<S>) -> (r: (S, usize))
    ensures
        r.0 == greedy(scores@, scores@.len()).0,
        r.1 == greedy(scores@, scores@.len()).1,
{
    let mut best = S::constant(Constant::NegInfinity);
    let mut at: usize = 0;
    for v in 0..scores.len()
        invariant
            (best, at as int) == greedy(scores@, v as nat),
    {
        if scores[v].exceeds(&best) {
            best = scores[v].dup();
            at = v;
        }
    }
    (best, at)
}

/// The greedy choice is the first of the tokens that no other exceeds, if any score lies
/// above the start of the search.
pub proof fn greedy_takes_the_first_maximum<S: Scalar>(scores: Seq<S>, i: int)
    requires
        all_ranked(scores),
        exists|j: int|
            0 <= j < scores.len() && above(
                #[trigger] scores[j],
                S::constant_value(Constant::NegInfinity),
            ),
        0 <= i < scores.len(),
    ensures
        ({
            let (best, at) = greedy(scores, scores.len());
            &&& 0 <= at < scores.len()
            &&& best == scores[at]
            &&& !above(scores[i], best)
            &&& i < at ==> above(best, scores[i])
        }),
{
    lemma_greedy(scores, scores.len(), i);
    let j = choose|j: int|
        0 <= j < scores.len() && above(
            #[trigger] scores[j],
            S::constant_value(Constant::NegInfinity),
        );
    lemma_greedy(scores, scores.len(), j);
}

proof fn lemma_greedy<S: Scalar>(scores: Seq<S>, n: nat, i: int)
    requires
        all_ranked(scores),
        S::rank(S::constant_value(Constant::NegInfinity)) is Some,
        n <= scores.len(),
        0 <= i < n,
    ensures
        ({
            let (best, at) = greedy(scores, n);
            &&& S::rank(best) is Some
            &&& !above(scores[i], best)
            &&& !above(S::constant_value(Constant::NegInfinity), best)
            &&& (at == 0 && best == S::constant_value(Constant::NegInfinity)) || (0 <= at < n
                && best == scores[at] && above(best, S::constant_value(Constant::NegInfinity)) && (i
                < at ==> above(best, scores[i])))
        }),
    decreases n,
{
    assert(S::rank(scores[i]) is Some);
    assert(S::rank(scores[n - 1]) is Some);
    if n > 1 {
        if i < n - 1 {
            lemma_greedy(scores, (n - 1) as nat, i);
        } else {
            lemma_greedy(scores, (n - 1) as nat, 0);
        }
    } else {
        assert(greedy(scores, 0) == (S::constant_value(Constant::NegInfinity), 0int));
    }
}

/// A hidden state without padding is not changed by clearing padding: a pass over exactly
/// the tokens' rows clears nothing.
pub proof fn nothing_to_clear_without_padding<S: Scalar>(x: Seq<S>, rows: nat, dim: nat)
    requires
        x.len() == rows * dim,
    ensures
        cleared(x, rows as int, dim as int) == x,
{
    assert(cleared(x, rows as int, dim as int) =~= x);
}

/// The rows of padding are zero after every layer.
pub proof fn padding_stays_zero<S: Scalar>(
    hidden: Seq<S>,
    w: LayerWeights<S>,
    shape: Shape,
    seq: nat,
    rows: int,
    eps: S,
    i: int,
)
    requires
        0 <= i,
        rows * shape.d_model <= i < hidden.len(),
    ensures
        layer_value(hidden, w, shape, seq, rows, eps)[i] == zero::<S>(),
{
}

/// What can be said of a vector in short.
pub struct Summary<S> {
    /// The root of the sum of its squares.
    pub norm: S,
    /// The sum of its elements over their number.
    pub mean: S,
    /// Its greatest element.
    pub greatest: S,
    /// Its least element: what is greatest with the signs turned, turned back.
    pub least: S,
}

/// The elements with their signs turned.
pub open spec fn turned<S: Scalar>(x: Seq<S>) -> Seq<S> {
    Seq::new(x.len(), |i: int| S::difference(zero(), x[i]))
}

/// Sums a vector up in short. In exact arithmetic, the norm squared is the sum of the squares, and
/// the mean times the number of elements is their sum.
pub fn summarize<S: Scalar>(x: &Vec<S>) -> (r: Summary<S>)
    ensures
        r.norm == S::root(dot(x@, x@, x@.len())),
        r.mean == S::quotient(range_sum(x@, 0, x@.len()), S::count_value(x@.len())),
        r.greatest == range_max(x@, 0, x@.len()),
        r.least == S::difference(zero(), range_max(turned(x@), 0, x@.len())),
        exact_roots::<S>() && above(dot(x@, x@, x@.len()), zero::<S>()) ==> S::product(
            r.norm,
            r.norm,
        ) == dot(x@, x@, x@.len()),
        exact_field::<S>() && x@.len() > 0 ==> S::product(r.mean, S::count_value(x@.len()))
            == range_sum(x@, 0, x@.len()),
{
    proof {
        if exact_roots::<S>() {
            reveal(squares_undo_roots);
        }
        if exact_field::<S>() && x@.len() > 0 {
            reveal(counts_are_sums);
            lemma_over_times(range_sum(x@, 0, x@.len()), S::count_value(x@.len()));
        }
    }
    let n: usize = x.len();
    let mut sum = S::constant(Constant::Zero);
    let mut greatest = S::constant(Constant::NegInfinity);
    let mut turned_greatest = S::constant(Constant::NegInfinity);
    for i in 0..n
        invariant
            n == x@.len(),
            sum == range_sum(x@, 0, i as nat),
            greatest == range_max(x@, 0, i as nat),
            turned_greatest == range_max(turned(x@), 0, i as nat),
    {
        sum = sum.plus(&x[i]);
        greatest = greatest.larger(&x[i]);
        let back = S::constant(Constant::Zero).minus(&x[i]);
        assert(back == turned(x@)[i as int]);
        turned_greatest = turned_greatest.larger(&back);
    }
    Summary {
        norm: dot_product(x, x, n).sqrt(),
        mean: sum.over(&S::from_count(n)),
        greatest,
        least: S::constant(Constant::Zero).minus(&turned_greatest),
    }
}

/// The positions that an audit of the predictions looks at: the one before the last, if
/// there is one, and the last.
pub fn audit_positions(seq: usize) -> (r: Vec<usize>)
    requires
        seq > 0,
    ensures
        r@ == if seq >= 2 {
            seq![(seq - 2) as usize, (seq - 1) as usize]
        } else {
            seq![(seq - 1) as usize]
        },
{
    let mut r: Vec<usize> = Vec::new();
    if seq >= 2 {
        r.push(seq - 2);
    }
    r.push(seq - 1);
    assert(r@ =~= if seq >= 2 {
        seq![(seq - 2) as usize, (seq - 1) as usize]
    } else {
        seq![(seq - 1) as usize]
    });
    r
}

} // verus!
