//! Kernels in which each thread writes one element of its own.
//!
//! They run in blocks of 256 threads, as many as cover the elements.

use vstd::prelude::*;

use crate::half::{pack_halves, packed};
use crate::kernels::basic::{written, Thread};
use crate::scalar::{one, zero, Constant, Scalar};

verus! {

/// The threads of a block.
pub const BLOCK: u32 = 256;

/// The first thread of each block counts the block as done.
pub open spec fn counted(status: u32, tid: u32) -> u32 {
    if tid == 0 {
        ((status + 1) % 0x1_0000_0000) as u32
    } else {
        status
    }
}

/// Counts a block as done.
pub fn count_block(status: &mut u32, tid: u32)
    ensures
        *final(status) == counted(*old(status), tid),
{
    if tid == 0 {
        *status = status.wrapping_add(1);
    }
}

/// The embedding of a token at a position: `out[pos][d]` is the token's embedding
/// plus that of the position.
pub open spec fn embedded<S: Scalar>(
    wte: Seq<S>,
    wpe: Seq<S>,
    token_ids: Seq<u32>,
    d_model: int,
    i: int,
) -> S {
    let pos = i / d_model;
    let d = i % d_model;
    S::sum(wte[token_ids[pos] * d_model + d], wpe[pos * d_model + d])
}

/// The tables hold every row that the tokens and positions ask for.
pub open spec fn tables_hold(
    wte_len: int,
    wpe_len: int,
    token_ids: Seq<u32>,
    seq_len: int,
    d_model: int,
) -> bool {
    &&& seq_len <= token_ids.len()
    &&& seq_len * d_model <= u32::MAX
    &&& seq_len * d_model <= wpe_len
    &&& wte_len <= u32::MAX
    &&& forall|p: int| 0 <= p < seq_len ==> (#[trigger] token_ids[p] + 1) * d_model <= wte_len
}

proof fn lemma_row_element(rows: int, cols: int, r: int, c: int)
    requires
        0 <= r < rows,
        0 <= c < cols,
    ensures
        0 <= r * cols,
        r * cols + c < rows * cols,
        r * cols + cols <= rows * cols,
{
    assert(0 <= r * cols && r * cols + cols <= rows * cols) by (nonlinear_arith)
        requires
            0 <= r < rows,
            0 <= c < cols,
    ;
}

proof fn lemma_split_index(i: int, rows: int, cols: int)
    requires
        0 <= i < rows * cols,
        0 <= rows,
        0 < cols,
    ensures
        0 <= i / cols < rows,
        0 <= i % cols < cols,
        (i / cols) * cols + i % cols == i,
{
    vstd::arithmetic::div_mod::lemma_fundamental_div_mod(i, cols);
    let q = i / cols;
    let m = i % cols;
    assert(0 <= m < cols && 0 <= q) by (nonlinear_arith)
        requires
            0 <= i,
            0 < cols,
            m == i % cols,
            q == i / cols,
    ;
    assert(cols * q == q * cols) by (nonlinear_arith);
    assert(q < rows) by (nonlinear_arith)
        requires
            q * cols + m == i,
            0 <= m,
            i < rows * cols,
            0 < cols,
    ;
}

/// Looks up and adds the embeddings of one element.
pub fn embedding_lookup<S: Scalar>(
    at: &Thread,
    wte: &Vec<S>,
    wpe: &Vec<S>,
    token_ids: &Vec<u32>,
    out: &mut Vec<S>,
    seq_len: u32,
    d_model: u32,
    status: &mut u32,
)
    requires
        at.fits(),
        d_model > 0,
        tables_hold(
            wte@.len() as int,
            wpe@.len() as int,
            token_ids@,
            seq_len as int,
            d_model as int,
        ),
        seq_len * d_model <= old(out)@.len(),
    ensures
        final(out)@ == written(
            old(out)@,
            at.gid(),
            seq_len * d_model,
            embedded(wte@, wpe@, token_ids@, d_model as int, at.gid()),
        ),
        *final(status) == counted(*old(status), at.tid),
{
    let global_id: u32 = at.index();
    proof {
        let (s, m) = (seq_len as int, d_model as int);
        assert(0 <= s * m) by (nonlinear_arith)
            requires
                0 <= s,
                0 <= m,
        ;
    }
    let total: u32 = seq_len * d_model;
    if global_id < total {
        proof {
            lemma_split_index(global_id as int, seq_len as int, d_model as int);
        }
        let pos: u32 = global_id / d_model;
        let d: u32 = global_id % d_model;
        let token_id: u32 = token_ids[pos as usize];
        proof {
            assert((token_ids@[pos as int] + 1) * d_model <= wte@.len());
            lemma_row_element(token_id + 1, d_model as int, token_id as int, d as int);
        }
        let tok_emb = &wte[(token_id * d_model + d) as usize];
        let pos_emb = &wpe[(pos * d_model + d) as usize];
        let val = tok_emb.plus(pos_emb);
        out.set(global_id as usize, val);
    }
    count_block(status, at.tid);
}

/// Adds to one element the bias of its column.
pub fn bias_add<S: Scalar>(
    at: &Thread,
    data: &mut Vec<S>,
    bias: &Vec<S>,
    n_cols: u32,
    total: u32,
    status: &mut u32,
)
    requires
        at.fits(),
        0 < n_cols <= bias@.len(),
        total <= old(data)@.len(),
    ensures
        final(data)@ == written(
            old(data)@,
            at.gid(),
            total as int,
            S::sum(old(data)@[at.gid()], bias@[at.gid() % n_cols as int]),
        ),
        *final(status) == counted(*old(status), at.tid),
{
    let global_id: u32 = at.index();
    if global_id < total {
        let col: u32 = global_id % n_cols;
        let val = data[global_id as usize].plus(&bias[col as usize]);
        data.set(global_id as usize, val);
    }
    count_block(status, at.tid);
}

/// Adds one element of a vector to another.
pub fn elementwise_add<S: Scalar>(at: &Thread, a: &mut Vec<S>, b: &Vec<S>, n: u32)
    requires
        at.fits(),
        n <= old(a)@.len(),
        n <= b@.len(),
    ensures
        final(a)@ == written(
            old(a)@,
            at.gid(),
            n as int,
            S::sum(old(a)@[at.gid()], b@[at.gid()]),
        ),
{
    let global_id: u32 = at.index();
    if global_id < n {
        let val = a[global_id as usize].plus(&b[global_id as usize]);
        a.set(global_id as usize, val);
    }
}

/// Where the element `i` of a head-major tensor `[head][seq][d]` stands in the rows
/// of the joint projection.
pub open spec fn qkv_base(i: int, seq_len: int, n_heads: int, d_head: int) -> int {
    let d = i % d_head;
    let seq = (i / d_head) % seq_len;
    let head = i / (d_head * seq_len);
    seq * 3 * (n_heads * d_head) + head * d_head + d
}

/// Where the element `i` of a row-major tensor `[seq][head * d_head]` stands in a
/// head-major one.
pub open spec fn head_major_index(i: int, seq_len: int, n_heads: int, d_head: int) -> int {
    let d_model = n_heads * d_head;
    let d = i % d_head;
    let col = i % d_model;
    let seq = i / d_model;
    let head = col / d_head;
    head * seq_len * d_head + seq * d_head + d
}

/// The shape of an attention layer whose elements can be numbered in 32 bits.
pub open spec fn shape_fits(seq_len: u32, n_heads: u32, d_head: u32) -> bool {
    &&& seq_len > 0
    &&& n_heads > 0
    &&& d_head > 0
    &&& seq_len * 3 * (n_heads * d_head) <= u32::MAX
}

/// The coordinates of an element of a head-major tensor.
proof fn lemma_head_major(i: int, seq_len: int, n_heads: int, d_head: int)
    requires
        seq_len > 0,
        n_heads > 0,
        d_head > 0,
        0 <= i < n_heads * seq_len * d_head,
    ensures
        0 <= i % d_head < d_head,
        0 <= (i / d_head) % seq_len < seq_len,
        0 <= i / (d_head * seq_len) < n_heads,
        i == (i / (d_head * seq_len)) * seq_len * d_head + ((i / d_head) % seq_len) * d_head + i
            % d_head,
{
    let rows = n_heads * seq_len;
    assert(0 <= rows) by (nonlinear_arith)
        requires
            rows == n_heads * seq_len,
            seq_len > 0,
            n_heads > 0,
    ;
    lemma_split_index(i, rows, d_head);
    let q = i / d_head;
    lemma_split_index(q, n_heads, seq_len);
    vstd::arithmetic::div_mod::lemma_div_denominator(i, d_head, seq_len);
    let head = i / (d_head * seq_len);
    let seq = q % seq_len;
    assert(head == q / seq_len);
    assert(q * d_head == head * seq_len * d_head + seq * d_head) by (nonlinear_arith)
        requires
            q == head * seq_len + seq,
    ;
}

/// The bounds of the places that an element is read from.
proof fn lemma_qkv_bounds(seq: int, head: int, d: int, seq_len: int, n_heads: int, d_head: int)
    requires
        0 <= seq < seq_len,
        0 <= head < n_heads,
        0 <= d < d_head,
    ensures
        0 <= head * d_head + d < n_heads * d_head,
        0 <= seq * 3 * (n_heads * d_head),
        seq * 3 * (n_heads * d_head) + 3 * (n_heads * d_head) <= seq_len * 3 * (n_heads * d_head),
        seq * 3 <= seq * 3 * (n_heads * d_head),
{
    lemma_row_element(n_heads, d_head, head, d);
    let m = n_heads * d_head;
    assert(m > 0);
    assert(0 <= seq * 3 * m && seq * 3 * m + 3 * m <= seq_len * 3 * m && seq * 3 <= seq * 3 * m)
        by (nonlinear_arith)
        requires
            0 <= seq < seq_len,
            m > 0,
    ;
}

/// Splits one element each of the queries, keys and values out of the joint
/// projection.
pub fn split_qkv<S: Scalar>(
    at: &Thread,
    input: &Vec<S>,
    q_out: &mut Vec<S>,
    k_out: &mut Vec<S>,
    v_out: &mut Vec<S>,
    seq_len: u32,
    n_heads: u32,
    d_head: u32,
)
    requires
        at.fits(),
        shape_fits(seq_len, n_heads, d_head),
        seq_len * 3 * (n_heads * d_head) <= input@.len(),
        n_heads * seq_len * d_head <= old(q_out)@.len(),
        n_heads * seq_len * d_head <= old(k_out)@.len(),
        n_heads * seq_len * d_head <= old(v_out)@.len(),
    ensures
        ({
            let total = n_heads * seq_len * d_head;
            let base = qkv_base(at.gid(), seq_len as int, n_heads as int, d_head as int);
            let d_model = n_heads * d_head;
            &&& final(q_out)@ == written(old(q_out)@, at.gid(), total, input@[base])
            &&& final(k_out)@ == written(old(k_out)@, at.gid(), total, input@[base + d_model])
            &&& final(v_out)@ == written(old(v_out)@, at.gid(), total, input@[base + 2 * d_model])
        }),
{
    let global_id: u32 = at.index();
    proof {
        let (s, h, d) = (seq_len as int, n_heads as int, d_head as int);
        assert(0 <= h * s && 0 <= h * d && h * s * d == s * (h * d) && 0 <= s * (h * d) && h * s <= h
            * s * d) by (nonlinear_arith)
            requires
                0 < s,
                0 < h,
                0 < d,
        ;
        assert(s * 3 * (h * d) == 3 * (s * (h * d))) by (nonlinear_arith);
        assert(h * d <= s * (h * d)) by (nonlinear_arith)
            requires
                s >= 1,
                0 <= h * d,
        ;
    }
    let total: u32 = n_heads * seq_len * d_head;
    if global_id < total {
        proof {
            let (s, h, d) = (seq_len as int, n_heads as int, d_head as int);
            lemma_head_major(global_id as int, s, h, d);
            lemma_qkv_bounds(
                (global_id as int / d) % s,
                global_id as int / (d * s),
                global_id as int % d,
                s,
                h,
                d,
            );
            assert(0 < d * s && d * s <= s * (h * d)) by (nonlinear_arith)
                requires
                    0 < s,
                    0 < h,
                    0 < d,
            ;
        }
        let d: u32 = global_id % d_head;
        let seq: u32 = (global_id / d_head) % seq_len;
        let head: u32 = global_id / (d_head * seq_len);
        let d_model: u32 = n_heads * d_head;
        let base: u32 = seq * 3 * d_model + head * d_head + d;
        let q_val = input[base as usize].dup();
        let k_val = input[(base + d_model) as usize].dup();
        let v_val = input[(base + 2 * d_model) as usize].dup();
        let out_idx: usize = global_id as usize;
        q_out.set(out_idx, q_val);
        k_out.set(out_idx, k_val);
        v_out.set(out_idx, v_val);
    }
}

/// Puts one element of the heads' results into its row.
pub fn concat_heads<S: Scalar>(
    at: &Thread,
    input: &Vec<S>,
    output: &mut Vec<S>,
    seq_len: u32,
    n_heads: u32,
    d_head: u32,
)
    requires
        at.fits(),
        shape_fits(seq_len, n_heads, d_head),
        seq_len * (n_heads * d_head) <= input@.len(),
        seq_len * (n_heads * d_head) <= old(output)@.len(),
    ensures
        final(output)@ == written(
            old(output)@,
            at.gid(),
            seq_len * (n_heads * d_head),
            input@[head_major_index(at.gid(), seq_len as int, n_heads as int, d_head as int)],
        ),
{
    let global_id: u32 = at.index();
    proof {
        let (s, h, d) = (seq_len as int, n_heads as int, d_head as int);
        assert(0 < h * d && 0 <= s * (h * d) && h * d <= s * (h * d)) by (nonlinear_arith)
            requires
                1 <= s,
                1 <= h,
                1 <= d,
        ;
        assert(s * 3 * (h * d) == 3 * (s * (h * d))) by (nonlinear_arith);
    }
    let d_model: u32 = n_heads * d_head;
    let total: u32 = seq_len * d_model;
    if global_id < total {
        proof {
            lemma_row_major(
                global_id as int,
                seq_len as int,
                n_heads as int,
                d_head as int,
            );
        }
        let d: u32 = global_id % d_head;
        let col: u32 = global_id % d_model;
        let seq: u32 = global_id / d_model;
        let head: u32 = col / d_head;
        let in_idx: u32 = head * seq_len * d_head + seq * d_head + d;
        let val = input[in_idx as usize].dup();
        output.set(global_id as usize, val);
    }
}

/// The coordinates of an element of a row-major tensor, and the bounds of its place
/// in a head-major one.
proof fn lemma_row_major(i: int, seq_len: int, n_heads: int, d_head: int)
    requires
        seq_len > 0,
        n_heads > 0,
        d_head > 0,
        0 <= i < seq_len * (n_heads * d_head),
    ensures
        ({
            let d_model = n_heads * d_head;
            let seq = i / d_model;
            let head = (i % d_model) / d_head;
            let d = i % d_head;
            &&& d_model > 0
            &&& 0 <= seq < seq_len
            &&& 0 <= head < n_heads
            &&& 0 <= d < d_head
            &&& i == seq * d_model + head * d_head + d
            &&& 0 <= head * seq_len
            &&& head * seq_len <= head * seq_len * d_head
            &&& 0 <= seq * d_head
            &&& 0 <= head * seq_len * d_head
            &&& head * seq_len * d_head + seq * d_head + d < seq_len * d_model
        }),
{
    let d_model = n_heads * d_head;
    assert(d_model > 0) by (nonlinear_arith)
        requires
            d_model == n_heads * d_head,
            n_heads > 0,
            d_head > 0,
    ;
    lemma_split_index(i, seq_len, d_model);
    let seq = i / d_model;
    let col = i % d_model;
    lemma_split_index(col, n_heads, d_head);
    let head = col / d_head;
    assert(i % d_head == col % d_head) by {
        assert(i == seq * n_heads * d_head + col) by (nonlinear_arith)
            requires
                i == seq * d_model + col,
                d_model == n_heads * d_head,
        ;
        vstd::arithmetic::div_mod::lemma_mod_multiples_vanish(seq * n_heads, col, d_head);
        assert(d_head * (seq * n_heads) == seq * n_heads * d_head) by (nonlinear_arith);
    }
    let d = i % d_head;
    assert(0 <= head * seq_len && head * seq_len <= head * seq_len * d_head && 0 <= seq * d_head && 0
        <= head * seq_len * d_head) by (nonlinear_arith)
        requires
            0 <= head,
            0 < seq_len,
            1 <= d_head,
            0 <= seq,
    ;
    assert(head * seq_len * d_head + seq * d_head + d < seq_len * d_model) by (nonlinear_arith)
        requires
            0 <= head < n_heads,
            0 <= seq < seq_len,
            0 <= d < d_head,
            d_model == n_heads * d_head,
    ;
}

/// Joining the heads undoes the split: the element of a row that comes from a head
/// is the one that the split gave to that head.
pub proof fn concat_undoes_split(i: int, seq_len: int, n_heads: int, d_head: int)
    requires
        seq_len > 0,
        n_heads > 0,
        d_head > 0,
        0 <= i < seq_len * (n_heads * d_head),
    ensures
        ({
            let j = head_major_index(i, seq_len, n_heads, d_head);
            let d_model = n_heads * d_head;
            &&& 0 <= j < n_heads * seq_len * d_head
            &&& qkv_base(j, seq_len, n_heads, d_head) == (i / d_model) * 3 * d_model + i % d_model
        }),
{
    let d_model = n_heads * d_head;
    let seq = i / d_model;
    let col = i % d_model;
    let head = col / d_head;
    let d = i % d_head;
    lemma_row_major(i, seq_len, n_heads, d_head);
    let j = head_major_index(i, seq_len, n_heads, d_head);
    assert(n_heads * seq_len * d_head == seq_len * d_model) by (nonlinear_arith)
        requires
            d_model == n_heads * d_head,
    ;
    lemma_head_major(j, seq_len, n_heads, d_head);
    let row = head * seq_len + seq;
    assert(j == d_head * row + d) by (nonlinear_arith)
        requires
            j == head * seq_len * d_head + seq * d_head + d,
            row == head * seq_len + seq,
    ;
    vstd::arithmetic::div_mod::lemma_fundamental_div_mod_converse(j, d_head, row, d);
    assert(row == seq_len * head + seq) by (nonlinear_arith)
        requires
            row == head * seq_len + seq,
    ;
    vstd::arithmetic::div_mod::lemma_fundamental_div_mod_converse(row, seq_len, head, seq);
    vstd::arithmetic::div_mod::lemma_div_denominator(j, d_head, seq_len);
    lemma_split_index(i, seq_len, d_model);
    lemma_split_index(col, n_heads, d_head);
    assert(col == head * d_head + d);
}

/// Sets one element beyond the first `start_offset` to zero.
pub fn zero_pad<S: Scalar>(at: &Thread, buffer: &mut Vec<S>, start_offset: u32, total_elems: u32)
    requires
        at.fits(),
        start_offset + at.gid() <= u32::MAX,
        total_elems <= old(buffer)@.len(),
    ensures
        final(buffer)@ == written(
            old(buffer)@,
            start_offset + at.gid(),
            total_elems as int,
            zero(),
        ),
{
    let gid: u32 = at.index();
    let idx: u32 = start_offset + gid;
    if idx < total_elems {
        buffer.set(idx as usize, S::constant(Constant::Zero));
    }
}

/// The activation `x * 0.5 * (1 + tanh(z))` of an element, where
/// `z = sqrt(2/pi) * (x + 0.044715 * x * x * x)` and the hyperbolic tangent is
/// computed as `(exp(2z) - 1) / (exp(2z) + 1)`.
pub open spec fn gelu_value<S: Scalar>(x: S) -> S {
    let cube = S::product(
        S::product(S::product(S::constant_value(Constant::GeluCoefficient), x), x),
        x,
    );
    let inner = S::product(S::constant_value(Constant::GeluScale), S::sum(x, cube));
    let e = S::exponential(S::product(S::constant_value(Constant::Two), inner));
    let tanh = S::quotient(S::difference(e, one()), S::sum(e, one()));
    S::product(
        S::product(x, S::constant_value(Constant::Half)),
        S::sum(one(), tanh),
    )
}

/// Applies the activation to one element.
pub fn gelu_forward<S: Scalar>(
    at: &Thread,
    input: &Vec<S>,
    output: &mut Vec<S>,
    n: u32,
    status: &mut u32,
)
    requires
        at.fits(),
        n <= input@.len(),
        n <= old(output)@.len(),
    ensures
        final(output)@ == written(old(output)@, at.gid(), n as int, gelu_value(input@[at.gid()])),
        *final(status) == counted(*old(status), at.tid),
{
    let global_id: u32 = at.index();
    if global_id < n {
        let x = &input[global_id as usize];
        let one = S::constant(Constant::One);
        let cube = S::constant(Constant::GeluCoefficient).times(x).times(x).times(x);
        let inner = S::constant(Constant::GeluScale).times(&x.plus(&cube));
        let exp_2z = S::constant(Constant::Two).times(&inner).exp();
        let tanh_val = exp_2z.minus(&one).over(&exp_2z.plus(&one));
        let result = x.times(&S::constant(Constant::Half)).times(&one.plus(&tanh_val));
        output.set(global_id as usize, result);
    }
    count_block(status, at.tid);
}

/// Packs one pair of converted elements, as the conversion instruction gave them.
pub fn f32_to_f16x2_pack(
    at: &Thread,
    halves: &Vec<u32>,
    output: &mut Vec<u32>,
    total_pairs: u32,
)
    requires
        at.fits(),
        2 * total_pairs <= halves@.len(),
        2 * total_pairs <= u32::MAX,
        total_pairs <= old(output)@.len(),
    ensures
        final(output)@ == written(
            old(output)@,
            at.gid(),
            total_pairs as int,
            packed(
                halves@[2 * at.gid()] as int % 0x1_0000,
                halves@[2 * at.gid() + 1] as int % 0x1_0000,
            ) as u32,
        ),
{
    let global_id: u32 = at.index();
    if global_id < total_pairs {
        let idx: u32 = global_id * 2;
        let h0: u32 = halves[idx as usize];
        let h1: u32 = halves[(idx + 1) as usize];
        output.set(global_id as usize, pack_halves(h0, h1));
    }
}

} // verus!
