//! Kernels run for every thread of their launch.
//!
//! A kernel says what one thread does. Here the threads of a launch run one after the other,
//! and what they do together is stated of the buffers as a whole.

use vstd::prelude::*;

use crate::index::{lemma_cell, lemma_place};
use crate::inference::execution::{
    attention_launch, concat_launch, gemm_launch, norm_launch, split_launch,
};
use crate::kernels::attention::flash_attention;
use crate::kernels::basic::Thread;
use crate::kernels::elementwise::{
    bias_add, concat_heads, elementwise_add, embedded, embedding_lookup, gelu_forward, gelu_value,
    split_qkv, tables_hold, zero_pad,
};
use crate::kernels::gemm::gemm_f32;
use crate::kernels::reduce::layer_norm;
use crate::reference::{added, biased};
use crate::scalar::{zero, Scalar};

verus! {

/// Thread number `g` of a launch with blocks of 256 threads.
fn thread_of(g: u32) -> (r: Thread)
    ensures
        r.gid() == g,
        r.fits(),
{
    Thread { block: g / 256, block_dim: 256, tid: g % 256 }
}

/// Adds a bias to all rows.
pub fn launch_bias_add<S: Scalar>(data: &mut Vec<S>, bias: &Vec<S>, n_cols: u32)
    requires
        0 < n_cols <= bias@.len(),
        old(data)@.len() <= u32::MAX,
    ensures
        final(data)@ == biased(old(data)@, bias@, n_cols as int),
{
    let ghost before = data@;
    let total: u32 = data.len() as u32;
    let mut status: u32 = 0;
    for g in 0..total
        invariant
            0 < n_cols <= bias@.len(),
            total == before.len(),
            data@.len() == before.len(),
            forall|j: int|
                0 <= j < before.len() ==> #[trigger] data@[j] == if j < g {
                    biased(before, bias@, n_cols as int)[j]
                } else {
                    before[j]
                },
    {
        let at = thread_of(g);
        bias_add(&at, data, bias, n_cols, total, &mut status);
    }
    assert(data@ =~= biased(before, bias@, n_cols as int));
}

/// Adds a buffer to another.
pub fn launch_add<S: Scalar>(a: &mut Vec<S>, b: &Vec<S>)
    requires
        old(a)@.len() <= u32::MAX,
        old(a)@.len() <= b@.len(),
    ensures
        final(a)@ == added(old(a)@, b@),
{
    let ghost before = a@;
    let total: u32 = a.len() as u32;
    for g in 0..total
        invariant
            total == before.len(),
            total <= b@.len(),
            a@.len() == before.len(),
            forall|j: int|
                0 <= j < before.len() ==> #[trigger] a@[j] == if j < g {
                    added(before, b@)[j]
                } else {
                    before[j]
                },
    {
        let at = thread_of(g);
        elementwise_add(&at, a, b, total);
    }
    assert(a@ =~= added(before, b@));
}

/// Clears a buffer from `start` on.
pub fn launch_zero_pad<S: Scalar>(buffer: &mut Vec<S>, start: u32)
    requires
        start <= old(buffer)@.len() <= u32::MAX,
    ensures
        final(buffer)@.len() == old(buffer)@.len(),
        forall|j: int|
            0 <= j < old(buffer)@.len() ==> #[trigger] final(buffer)@[j] == if j < start {
                old(buffer)@[j]
            } else {
                zero()
            },
{
    let ghost before = buffer@;
    let total: u32 = buffer.len() as u32;
    for g in 0..total - start
        invariant
            start <= total,
            total == before.len(),
            buffer@.len() == before.len(),
            forall|j: int|
                0 <= j < before.len() ==> #[trigger] buffer@[j] == if start <= j < start + g {
                    zero()
                } else {
                    before[j]
                },
    {
        let at = thread_of(g);
        zero_pad(&at, buffer, start, total);
    }
}

/// Activates all elements.
pub fn launch_gelu<S: Scalar>(input: &Vec<S>, output: &mut Vec<S>)
    requires
        input@.len() <= u32::MAX,
        old(output)@.len() == input@.len(),
    ensures
        final(output)@ == Seq::new(input@.len(), |i: int| gelu_value(input@[i])),
{
    let total: u32 = input.len() as u32;
    let mut status: u32 = 0;
    for g in 0..total
        invariant
            total == input@.len(),
            output@.len() == total,
            forall|j: int| 0 <= j < g ==> #[trigger] output@[j] == gelu_value(input@[j]),
    {
        let at = thread_of(g);
        gelu_forward(&at, input, output, total, &mut status);
    }
    assert(output@ =~= Seq::new(input@.len(), |i: int| gelu_value(input@[i])));
}

/// Embeds all tokens.
pub fn launch_embedding<S: Scalar>(
    wte: &Vec<S>,
    wpe: &Vec<S>,
    token_ids: &Vec<u32>,
    out: &mut Vec<S>,
    seq_len: u32,
    d_model: u32,
)
    requires
        d_model > 0,
        tables_hold(
            wte@.len() as int,
            wpe@.len() as int,
            token_ids@,
            seq_len as int,
            d_model as int,
        ),
        old(out)@.len() == seq_len * d_model,
    ensures
        final(out)@ == Seq::new(
            (seq_len * d_model) as nat,
            |i: int| embedded(wte@, wpe@, token_ids@, d_model as int, i),
        ),
{
    let total: u32 = out.len() as u32;
    let mut status: u32 = 0;
    for g in 0..total
        invariant
            d_model > 0,
            tables_hold(
                wte@.len() as int,
                wpe@.len() as int,
                token_ids@,
                seq_len as int,
                d_model as int,
            ),
            total == seq_len * d_model,
            out@.len() == total,
            forall|j: int|
                0 <= j < g ==> #[trigger] out@[j] == embedded(
                    wte@,
                    wpe@,
                    token_ids@,
                    d_model as int,
                    j,
                ),
    {
        let at = thread_of(g);
        embedding_lookup(&at, wte, wpe, token_ids, out, seq_len, d_model, &mut status);
    }
    assert(out@ =~= Seq::new(
        (seq_len * d_model) as nat,
        |i: int| embedded(wte@, wpe@, token_ids@, d_model as int, i),
    ));
}

/// Splits the joint projection of twelve heads of 64 into queries, keys and values.
pub fn launch_split_qkv<S: Scalar>(
    input: &Vec<S>,
    q_out: &mut Vec<S>,
    k_out: &mut Vec<S>,
    v_out: &mut Vec<S>,
    seq_len: u32,
)
    requires
        0 < seq_len <= 1024,
        input@.len() == seq_len * 2304,
        old(q_out)@.len() == seq_len * 768,
        old(k_out)@.len() == seq_len * 768,
        old(v_out)@.len() == seq_len * 768,
    ensures
        final(q_out)@ == split_launch(input@, 0, seq_len as nat),
        final(k_out)@ == split_launch(input@, 1, seq_len as nat),
        final(v_out)@ == split_launch(input@, 2, seq_len as nat),
{
    let total: u32 = seq_len * 768;
    let ghost q = split_launch(input@, 0, seq_len as nat);
    let ghost k = split_launch(input@, 1, seq_len as nat);
    let ghost v = split_launch(input@, 2, seq_len as nat);
    for g in 0..total
        invariant
            0 < seq_len <= 1024,
            total == seq_len * 768,
            input@.len() == seq_len * 2304,
            q_out@.len() == total,
            k_out@.len() == total,
            v_out@.len() == total,
            q == split_launch(input@, 0, seq_len as nat),
            k == split_launch(input@, 1, seq_len as nat),
            v == split_launch(input@, 2, seq_len as nat),
            forall|j: int| 0 <= j < g ==> #[trigger] q_out@[j] == q[j],
            forall|j: int| 0 <= j < g ==> #[trigger] k_out@[j] == k[j],
            forall|j: int| 0 <= j < g ==> #[trigger] v_out@[j] == v[j],
    {
        let at = thread_of(g);
        split_qkv(&at, input, q_out, k_out, v_out, seq_len, 12, 64);
    }
    assert(q_out@ =~= q);
    assert(k_out@ =~= k);
    assert(v_out@ =~= v);
}

/// Joins twelve heads of 64.
pub fn launch_concat_heads<S: Scalar>(input: &Vec<S>, output: &mut Vec<S>, seq_len: u32)
    requires
        0 < seq_len <= 1024,
        input@.len() == seq_len * 768,
        old(output)@.len() == seq_len * 768,
    ensures
        final(output)@ == concat_launch(input@, seq_len as nat),
{
    let total: u32 = seq_len * 768;
    let ghost want = concat_launch(input@, seq_len as nat);
    for g in 0..total
        invariant
            0 < seq_len <= 1024,
            total == seq_len * 768,
            input@.len() == total,
            output@.len() == total,
            want == concat_launch(input@, seq_len as nat),
            forall|j: int| 0 <= j < g ==> #[trigger] output@[j] == want[j],
    {
        let at = thread_of(g);
        concat_heads(&at, input, output, seq_len, 12, 64);
    }
    assert(output@ =~= want);
}

/// Normalizes all rows of 768 elements.
pub fn launch_layer_norm<S: Scalar>(
    input: &Vec<S>,
    output: &mut Vec<S>,
    gamma: &Vec<S>,
    beta: &Vec<S>,
    seq_len: u32,
    eps: &S,
)
    requires
        seq_len <= 1024,
        input@.len() == seq_len * 768,
        old(output)@.len() == seq_len * 768,
        768 <= gamma@.len(),
        768 <= beta@.len(),
    ensures
        final(output)@ == norm_launch(input@, gamma@, beta@, seq_len as nat, *eps),
{
    let ghost want = norm_launch(input@, gamma@, beta@, seq_len as nat, *eps);
    let mut status: u32 = 0;
    for row in 0..seq_len
        invariant
            seq_len <= 1024,
            input@.len() == seq_len * 768,
            output@.len() == seq_len * 768,
            768 <= gamma@.len(),
            768 <= beta@.len(),
            want == norm_launch(input@, gamma@, beta@, seq_len as nat, *eps),
            forall|j: int| 0 <= j < row * 768 ==> #[trigger] output@[j] == want[j],
    {
        let ghost before = output@;
        layer_norm(row, input, output, gamma, beta, 768, eps, &mut status);
        assert forall|j: int| 0 <= j < (row + 1) * 768 implies #[trigger] output@[j] == want[j] by {
            if j < row * 768 {
                assert(output@[j] == before[j]);
            } else {
                assert(j / 768 == row && j % 768 == j - row * 768);
            }
        }
    }
    assert(output@ =~= want);
}

/// Multiplies all rows by a matrix that is given column by column, 32 rows and 16 columns in
/// each block.
pub fn launch_gemm<S: Scalar>(
    a: &Vec<S>,
    b: &Vec<S>,
    d: &mut Vec<S>,
    seq_len: u32,
    k_dim: u32,
    n_cols: u32,
)
    requires
        seq_len <= 1024,
        seq_len % 32 == 0,
        k_dim <= 4096,
        0 < n_cols <= 4096,
        n_cols % 16 == 0,
        a@.len() == seq_len * k_dim,
        b@.len() == n_cols * k_dim,
        old(d)@.len() == seq_len * n_cols,
    ensures
        final(d)@ == gemm_launch(a@, b@, seq_len as nat, k_dim as nat, n_cols as nat),
{
    let ghost want = gemm_launch(a@, b@, seq_len as nat, k_dim as nat, n_cols as nat);
    let mut status: u32 = 0;
    for m in 0..seq_len / 32
        invariant
            seq_len <= 1024,
            seq_len % 32 == 0,
            k_dim <= 4096,
            0 < n_cols <= 4096,
            n_cols % 16 == 0,
            a@.len() == seq_len * k_dim,
            b@.len() == n_cols * k_dim,
            d@.len() == seq_len * n_cols,
            want == gemm_launch(a@, b@, seq_len as nat, k_dim as nat, n_cols as nat),
            forall|x: int|
                0 <= x < d@.len() && x / n_cols as int / 32 < m ==> #[trigger] d@[x] == want[x],
    {
        proof {
            let (s, k, n, r) = (seq_len as int, k_dim as int, n_cols as int, m as int);
            assert((r + 1) * 32 * k <= s * k && (r + 1) * 32 * n <= s * n && s * k <= 1024 * 4096
                && s * n <= 1024 * 4096 && n * k <= 4096 * 4096) by (nonlinear_arith)
                requires
                    0 <= (r + 1) * 32 <= s,
                    s <= 1024,
                    0 <= k <= 4096,
                    0 <= n <= 4096,
            ;
        }
        for c in 0..n_cols / 16
            invariant
                m < seq_len / 32,
                seq_len <= 1024,
                seq_len % 32 == 0,
                k_dim <= 4096,
                0 < n_cols <= 4096,
                n_cols % 16 == 0,
                a@.len() == seq_len * k_dim,
                b@.len() == n_cols * k_dim,
                d@.len() == seq_len * n_cols,
                (m + 1) * 32 * k_dim <= seq_len * k_dim <= 1024 * 4096,
                (m + 1) * 32 * n_cols <= seq_len * n_cols <= 1024 * 4096,
                n_cols * k_dim <= 4096 * 4096,
                want == gemm_launch(a@, b@, seq_len as nat, k_dim as nat, n_cols as nat),
                forall|x: int|
                    0 <= x < d@.len() && (x / n_cols as int / 32 < m || x / n_cols as int / 32 == m
                        && x % n_cols as int / 16 < c) ==> #[trigger] d@[x] == want[x],
        {
            let ghost before = d@;
            gemm_f32(a, b, d, k_dim, n_cols, m, c, &mut status);
            assert forall|x: int|
                0 <= x < d@.len() && (x / n_cols as int / 32 < m || x / n_cols as int / 32 == m && x
                    % n_cols as int / 16 < c + 1) implies #[trigger] d@[x] == want[x] by {
                if !(m * 32 <= x / n_cols as int && x / n_cols as int <= m * 32 + 31 && c * 16 <= x
                    % n_cols as int && x % n_cols as int <= c * 16 + 15) {
                    assert(d@[x] == before[x]);
                }
            }
        }
        assert forall|x: int| 0 <= x < d@.len() && x / n_cols as int / 32 < m + 1 implies #[trigger] d@[x]
            == want[x] by {
            assert(0 <= x % n_cols as int && x % n_cols as int <= n_cols - 1);
        }
    }
    assert forall|x: int| 0 <= x < d@.len() implies #[trigger] d@[x] == want[x] by {
        lemma_place(x, seq_len as int, n_cols as int);
    }
    assert(d@ =~= want);
}

/// Causal attention of twelve heads of 64, a block for each head and each 32 queries.
pub fn launch_attention<S: Scalar>(
    q: &Vec<S>,
    k: &Vec<S>,
    v: &Vec<S>,
    out: &mut Vec<S>,
    seq_len: u32,
)
    requires
        0 < seq_len <= 1024,
        q@.len() == seq_len * 768,
        k@.len() == seq_len * 768,
        v@.len() == seq_len * 768,
        old(out)@.len() == seq_len * 768,
    ensures
        final(out)@ == attention_launch(q@, k@, v@, old(out)@, seq_len as nat),
{
    let ghost start = out@;
    let ghost want = attention_launch(q@, k@, v@, start, seq_len as nat);
    let ghost size = seq_len * 64;
    let mut status: u32 = 0;
    for h in 0..12u32
        invariant
            0 < seq_len <= 1024,
            size == seq_len * 64,
            q@.len() == seq_len * 768,
            k@.len() == seq_len * 768,
            v@.len() == seq_len * 768,
            out@.len() == seq_len * 768,
            start.len() == out@.len(),
            want == attention_launch(q@, k@, v@, start, seq_len as nat),
            forall|x: int|
                0 <= x < out@.len() ==> #[trigger] out@[x] == if x < h * size {
                    want[x]
                } else {
                    start[x]
                },
    {
        proof {
            let (g, s) = (h as int, seq_len as int);
            assert((g + 1) * s * 64 == (g + 1) * size && g * s * 64 == g * size && (g + 1) * size
                <= 12 * size && (g + 1) * size == g * size + size && 0 <= g * size)
                by (nonlinear_arith)
                requires
                    size == s * 64,
                    0 <= g < 12,
                    0 < s,
            ;
        }
        for t in 0..(seq_len + 31) / 32
            invariant
                0 <= h < 12,
                0 < seq_len <= 1024,
                size == seq_len * 64,
                h * seq_len * 64 == h * size,
                (h + 1) * seq_len * 64 == h * size + size,
                0 <= h * size,
                h * size + size <= 12 * size,
                q@.len() == seq_len * 768,
                k@.len() == seq_len * 768,
                v@.len() == seq_len * 768,
                out@.len() == seq_len * 768,
                start.len() == out@.len(),
                want == attention_launch(q@, k@, v@, start, seq_len as nat),
                forall|x: int|
                    0 <= x < out@.len() ==> #[trigger] out@[x] == if x < h * size + 2048 * t && x < h
                        * size + size {
                        want[x]
                    } else {
                        start[x]
                    },
        {
            let ghost before = out@;
            flash_attention(h, t, q, k, v, out, seq_len, 64, 1, &mut status);
            assert forall|x: int| 0 <= x < out@.len() implies #[trigger] out@[x] == if x < h * size
                + 2048 * (t + 1) && x < h * size + size {
                want[x]
            } else {
                start[x]
            } by {
                let y = x - h * size;
                assert(out@[x] == out@[x] && before[x] == before[x]);
                if 0 <= y < size {
                    lemma_cell(h as int, 12, y, size);
                    let i = y / 64;
                    assert(0 <= i < seq_len);
                    if 2048 * t <= y < 2048 * t + 2048 {
                        assert(i / 32 == t);
                    }
                }
            }
        }
    }
    assert(12 * size == seq_len * 768);
    assert(out@ =~= want);
}

} // verus!
