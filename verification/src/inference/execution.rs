//! What the launches of a forward pass compute.
//!
//! A launch runs a kernel for all of its threads. Here stands what that makes of the buffers,
//! and that in exact arithmetic all launches of a pass together compute what the reference
//! computes.

use vstd::prelude::*;

use crate::agreement::{
    activations_agree, attentions_agree, exact_softmax, layer_norms_agree, products_agree,
    tangents_are_fractions,
};
use crate::exact::{exact_fused, exact_ring};
use crate::index::{lemma_cell, lemma_place};
use crate::inference::plan::{
    attention_launches, feed_forward_launches, forward_launches, launch_of, layer_launches,
    layers_launches, pad_launches, Buffer, Launch, Op, Weight,
};
use crate::inference::prepare::{col_major, padded_tokens};
use crate::kernels::attention::{
    attended, component, flash_row, flash_value, score, score_row, tiles_seen,
};
use crate::kernels::elementwise::{embedded, gelu_value, head_major_index, qkv_base};
use crate::kernels::gemm::product_element;
use crate::kernels::online::{
    counts, exact_exponential, lemma_row_positive, scores_have_weight, sums_stay_positive,
    tiled_attention_is_attention,
};
use crate::kernels::reduce::normalized;
use crate::reference::{
    activated, added, attention_branch, attention_value, biased, cleared, embedded_tokens,
    feed_forward_branch, forward_value, head_output, head_part, layer_value, layers_value,
    matmul_value, normalized_rows, LayerWeights, Shape,
};
use crate::scalar::{above, zero, Scalar};

verus! {

/// A model and the tokens of a pass.
pub struct Pass<S> {
    pub tokens: Seq<u32>,
    pub seq: nat,
    pub wte: Seq<S>,
    pub wpe: Seq<S>,
    pub layers: Seq<LayerWeights<S>>,
    pub ln_f_weight: Seq<S>,
    pub ln_f_bias: Seq<S>,
    pub eps: S,
}

/// The sizes of GPT-2 small.
pub open spec fn small() -> Shape {
    Shape { d_model: 768, n_heads: 12, d_head: 64, d_ffn: 3072 }
}

impl<S: Scalar> Pass<S> {
    /// The rows hold the tokens, and there are weights for all layers.
    pub open spec fn wf(self) -> bool {
        &&& 0 < self.tokens.len() <= self.seq
        &&& self.layers.len() == 12
        &&& forall|i: int| 0 <= i < 12 ==> (#[trigger] self.layers[i]).wf(small())
    }

    /// The tokens with their padding.
    pub open spec fn token_ids(self) -> Seq<u32> {
        padded_tokens(self.tokens, self.seq)
    }

    /// What a weight is on the device: a matrix, column by column, and a bias; or the scale
    /// and the shift of a normalization.
    pub open spec fn weight(self, layer: int, weight: Weight) -> (Seq<S>, Seq<S>) {
        let w = self.layers[layer];
        match weight {
            Weight::Ln1 => (w.ln_1_weight@, w.ln_1_bias@),
            Weight::Qkv => (col_major(w.c_attn_weight@, 768, 2304), w.c_attn_bias@),
            Weight::Proj => (col_major(w.c_proj_weight@, 768, 768), w.c_proj_bias@),
            Weight::Ln2 => (w.ln_2_weight@, w.ln_2_bias@),
            Weight::Fc => (col_major(w.mlp_fc_weight@, 768, 3072), w.mlp_fc_bias@),
            Weight::FcProj => (col_major(w.mlp_proj_weight@, 3072, 768), w.mlp_proj_bias@),
            Weight::LnFinal => (self.ln_f_weight, self.ln_f_bias),
        }
    }
}

/// The buffers of a pass.
#[verifier::ext_equal]
pub struct Buffers<S> {
    pub hidden: Seq<S>,
    pub ln_out: Seq<S>,
    pub qkv: Seq<S>,
    pub query: Seq<S>,
    pub key: Seq<S>,
    pub value: Seq<S>,
    pub attn_out: Seq<S>,
    pub concat: Seq<S>,
    pub proj_out: Seq<S>,
    pub ffn_hidden: Seq<S>,
    pub gelu_out: Seq<S>,
    pub ffn_out: Seq<S>,
}

impl<S> Buffers<S> {
    /// A buffer.
    pub open spec fn get(self, b: Buffer) -> Seq<S> {
        match b {
            Buffer::Hidden => self.hidden,
            Buffer::LnOut => self.ln_out,
            Buffer::Qkv => self.qkv,
            Buffer::Query => self.query,
            Buffer::Key => self.key,
            Buffer::Value => self.value,
            Buffer::AttnOut => self.attn_out,
            Buffer::Concat => self.concat,
            Buffer::ProjOut => self.proj_out,
            Buffer::FfnHidden => self.ffn_hidden,
            Buffer::GeluOut => self.gelu_out,
            Buffer::FfnOut => self.ffn_out,
        }
    }

    /// The buffers with one of them replaced.
    pub open spec fn put(self, b: Buffer, x: Seq<S>) -> Buffers<S> {
        match b {
            Buffer::Hidden => Buffers { hidden: x, ..self },
            Buffer::LnOut => Buffers { ln_out: x, ..self },
            Buffer::Qkv => Buffers { qkv: x, ..self },
            Buffer::Query => Buffers { query: x, ..self },
            Buffer::Key => Buffers { key: x, ..self },
            Buffer::Value => Buffers { value: x, ..self },
            Buffer::AttnOut => Buffers { attn_out: x, ..self },
            Buffer::Concat => Buffers { concat: x, ..self },
            Buffer::ProjOut => Buffers { proj_out: x, ..self },
            Buffer::FfnHidden => Buffers { ffn_hidden: x, ..self },
            Buffer::GeluOut => Buffers { gelu_out: x, ..self },
            Buffer::FfnOut => Buffers { ffn_out: x, ..self },
        }
    }
}

/// All rows normalized by the kernel.
pub open spec fn norm_launch<S: Scalar>(
    x: Seq<S>,
    gamma: Seq<S>,
    beta: Seq<S>,
    seq: nat,
    eps: S,
) -> Seq<S> {
    Seq::new(
        seq * 768,
        |i: int| normalized(x, gamma, beta, i / 768 * 768, 768, eps, i % 768),
    )
}

/// A product computed by the kernel.
pub open spec fn gemm_launch<S: Scalar>(x: Seq<S>, w: Seq<S>, seq: nat, k: nat, n: nat) -> Seq<S> {
    Seq::new(seq * n, |i: int| product_element(x, w, k, i / n as int, i % n as int))
}

/// One part of the joint projection, head by head.
pub open spec fn split_launch<S>(qkv: Seq<S>, part: int, seq: nat) -> Seq<S> {
    Seq::new(seq * 768, |i: int| qkv[qkv_base(i, seq as int, 12, 64) + part * 768])
}

/// The attention of one element of a head.
pub open spec fn attention_cell<S: Scalar>(
    q: Seq<S>,
    k: Seq<S>,
    v: Seq<S>,
    before: S,
    seq: int,
    head: int,
    i: int,
    d: int,
) -> S {
    let state = flash_row(
        q,
        k,
        v,
        head * seq * 64,
        seq,
        64,
        true,
        i,
        tiles_seen(i / 32, seq, true),
    );
    if above(state.l, zero()) {
        flash_value(state, d)
    } else {
        before
    }
}

/// Causal attention of all heads by the tiled kernel.
pub open spec fn attention_launch<S: Scalar>(
    q: Seq<S>,
    k: Seq<S>,
    v: Seq<S>,
    before: Seq<S>,
    seq: nat,
) -> Seq<S> {
    Seq::new(
        seq * 768,
        |x: int|
            {
                let y = x % (seq * 64) as int;
                attention_cell(
                    q,
                    k,
                    v,
                    before[x],
                    seq as int,
                    x / (seq * 64) as int,
                    y / 64,
                    y % 64,
                )
            },
    )
}

/// The heads joined again.
pub open spec fn concat_launch<S>(x: Seq<S>, seq: nat) -> Seq<S> {
    Seq::new(seq * 768, |i: int| x[head_major_index(i, seq as int, 12, 64)])
}

/// What a launch makes of the buffers.
pub open spec fn executed<S: Scalar>(p: Pass<S>, b: Buffers<S>, launch: Launch) -> Buffers<S> {
    let layer = launch.layer as int;
    match launch.op {
        Op::Embed => Buffers {
            hidden: Seq::new(
                p.seq * 768,
                |i: int| embedded(p.wte, p.wpe, p.token_ids(), 768, i),
            ),
            ..b
        },
        Op::ZeroPad { start } => Buffers {
            hidden: Seq::new(
                b.hidden.len(),
                |i: int|
                    if i < start {
                        b.hidden[i]
                    } else {
                        zero()
                    },
            ),
            ..b
        },
        Op::LayerNorm { weight } => {
            let (gamma, beta) = p.weight(layer, weight);
            Buffers { ln_out: norm_launch(b.hidden, gamma, beta, p.seq, p.eps), ..b }
        },
        Op::Gemm { input, weight, output, k, n } => b.put(
            output,
            gemm_launch(b.get(input), p.weight(layer, weight).0, p.seq, k as nat, n as nat),
        ),
        Op::BiasAdd { data, weight, n } => b.put(
            data,
            biased(b.get(data), p.weight(layer, weight).1, n as int),
        ),
        Op::SplitQkv => Buffers {
            query: split_launch(b.qkv, 0, p.seq),
            key: split_launch(b.qkv, 1, p.seq),
            value: split_launch(b.qkv, 2, p.seq),
            ..b
        },
        Op::FlashAttention => Buffers {
            attn_out: attention_launch(b.query, b.key, b.value, b.attn_out, p.seq),
            ..b
        },
        Op::ConcatHeads => Buffers { concat: concat_launch(b.attn_out, p.seq), ..b },
        Op::Gelu => Buffers {
            gelu_out: Seq::new(b.ffn_hidden.len(), |i: int| gelu_value(b.ffn_hidden[i])),
            ..b
        },
        Op::AddResidual { from } => Buffers { hidden: added(b.hidden, b.get(from)), ..b },
    }
}

/// What a number of launches make of the buffers.
pub open spec fn run<S: Scalar>(p: Pass<S>, b: Buffers<S>, launches: Seq<Launch>) -> Buffers<S>
    decreases launches.len(),
{
    if launches.len() == 0 {
        b
    } else {
        executed(p, run(p, b, launches.drop_last()), launches.last())
    }
}

/// No product is as low as the score of a masked position.
#[verifier::opaque]
pub open spec fn products_count<S: Scalar>() -> bool {
    forall|a: S, b: S| counts(#[trigger] S::product(a, b))
}

/// Arithmetic that does not round, and in which no score is as low as that of a masked
/// position.
pub open spec fn exact<S: Scalar>() -> bool {
    &&& exact_ring::<S>()
    &&& exact_fused::<S>()
    &&& exact_exponential::<S>()
    &&& exact_softmax::<S>()
    &&& tangents_are_fractions::<S>()
    &&& scores_have_weight::<S>()
    &&& sums_stay_positive::<S>()
    &&& products_count::<S>()
}

proof fn lemma_run_push<S: Scalar>(p: Pass<S>, b: Buffers<S>, launches: Seq<Launch>, last: Launch)
    ensures
        run(p, b, launches.push(last)) == executed(p, run(p, b, launches), last),
{
    assert(launches.push(last).drop_last() =~= launches);
}

proof fn lemma_run_append<S: Scalar>(
    p: Pass<S>,
    b: Buffers<S>,
    first: Seq<Launch>,
    second: Seq<Launch>,
)
    ensures
        run(p, b, first + second) == run(p, run(p, b, first), second),
    decreases second.len(),
{
    if second.len() == 0 {
        assert(first + second =~= first);
    } else {
        lemma_run_append(p, b, first, second.drop_last());
        assert((first + second).drop_last() =~= first + second.drop_last());
        assert((first + second).last() == second.last());
    }
}

proof fn lemma_norm<S: Scalar>(x: Seq<S>, gamma: Seq<S>, beta: Seq<S>, seq: nat, eps: S)
    requires
        exact::<S>(),
        x.len() == seq * 768,
    ensures
        norm_launch(x, gamma, beta, seq, eps) == normalized_rows(x, gamma, beta, 768, eps),
{
    let want = normalized_rows(x, gamma, beta, 768, eps);
    let got = norm_launch(x, gamma, beta, seq, eps);
    assert forall|i: int| 0 <= i < seq * 768 implies #[trigger] got[i] == want[i] by {
        let r = i / 768;
        assert(r + 1 <= seq);
        layer_norms_agree(x, gamma, beta, r, 768, eps, i % 768);
        assert(r * 768 + i % 768 == i);
    }
    assert(got =~= want);
}

proof fn lemma_gemm<S: Scalar>(x: Seq<S>, w: Seq<S>, seq: nat, k: nat, n: nat)
    requires
        exact::<S>(),
        w.len() == k * n,
    ensures
        gemm_launch(x, col_major(w, k, n), seq, k, n) == matmul_value(x, w, seq, k, n),
{
    let turned = col_major(w, k, n);
    let want = matmul_value(x, w, seq, k, n);
    let got = gemm_launch(x, turned, seq, k, n);
    assert(k * n == n * k) by (nonlinear_arith);
    assert forall|p: int, q: int| 0 <= p < k && 0 <= q < n implies #[trigger] turned[q * k + p]
        == w[p * n + q] by {
        lemma_cell(q, n as int, p, k as int);
    }
    assert forall|i: int| 0 <= i < seq * n implies #[trigger] got[i] == want[i] by {
        lemma_place(i, seq as int, n as int);
        products_agree(x, w, turned, k, n, i / n as int, i % n as int);
    }
    assert(got =~= want);
}

/// Where an element of a head stands in the joint projection.
proof fn lemma_qkv_place(seq: int, h: int, y: int)
    requires
        0 <= h < 12,
        0 <= y < seq * 64,
    ensures
        qkv_base(h * seq * 64 + y, seq, 12, 64) == y / 64 * 2304 + h * 64 + y % 64,
{
    let i = h * seq * 64 + y;
    let s = y / 64;
    let d = y % 64;
    let m = 64 * seq;
    lemma_cell(h, 12, s, seq);
    assert(h * seq * 64 == 64 * (h * seq)) by (nonlinear_arith);
    assert(i == 64 * (h * seq + s) + d);
    assert(i / 64 == h * seq + s && i % 64 == d);
    assert(h * seq * 64 == h * m) by (nonlinear_arith)
        requires
            m == 64 * seq,
    ;
    lemma_cell(h, 12, y, m);
    assert(i / (64 * seq) == h);
    assert((i / 64) % seq == s);
    let whole = 12 * 64int;
    assert(s * 3 * whole == s * 2304) by (nonlinear_arith)
        requires
            whole == 768,
    ;
}

/// An element of a head in the split buffers is that of the reference.
proof fn lemma_split<S: Scalar>(qkv: Seq<S>, part: int, seq: nat, h: int)
    requires
        0 <= part < 3,
        0 <= h < 12,
        seq > 0,
    ensures
        split_launch(qkv, part, seq).subrange(h * seq * 64, h * seq * 64 + seq * 64)
            == head_part(qkv, part, h, seq, small()),
        0 <= h * seq * 64,
        h * seq * 64 + seq * 64 <= seq * 768,
{
    let base = h * seq * 64;
    let m = (seq * 64) as int;
    assert(base == h * m && 0 <= h * m && h * m + m <= 12 * m) by (nonlinear_arith)
        requires
            base == h * seq * 64,
            m == seq * 64,
            0 <= h < 12,
            seq > 0,
    ;
    let got = split_launch(qkv, part, seq).subrange(base, base + seq * 64);
    let want = head_part(qkv, part, h, seq, small());
    assert forall|y: int| 0 <= y < seq * 64 implies #[trigger] got[y] == want[y] by {
        lemma_qkv_place(seq as int, h, y);
        assert(got[y] == split_launch(qkv, part, seq)[base + y]);
    }
    assert(got =~= want);
}

/// Attention over a head depends on that head's part of the buffers only.
proof fn lemma_attended_part<S: Scalar>(
    q: Seq<S>,
    k: Seq<S>,
    v: Seq<S>,
    base: int,
    seq: nat,
    i: int,
    d: int,
)
    requires
        0 <= base,
        base + seq * 64 <= q.len(),
        base + seq * 64 <= k.len(),
        base + seq * 64 <= v.len(),
        0 <= i < seq,
        0 <= d < 64,
    ensures
        ({
            let end = base + seq * 64;
            attended(q, k, v, base, seq, 64, true, i, d) == attended(
                q.subrange(base, end),
                k.subrange(base, end),
                v.subrange(base, end),
                0,
                seq,
                64,
                true,
                i,
                d,
            )
        }),
{
    let end = base + seq * 64;
    let (q0, k0, v0) = (q.subrange(base, end), k.subrange(base, end), v.subrange(base, end));
    assert(i * 64 + 64 <= seq * 64);
    assert(q.subrange(base + i * 64, base + i * 64 + 64) =~= q0.subrange(i * 64, i * 64 + 64));
    assert forall|j: int| 0 <= j < seq implies score(q, k, base, 64, true, i, j) == score(
        q0,
        k0,
        0,
        64,
        true,
        i,
        j,
    ) by {
        assert(j * 64 + 64 <= seq * 64);
        assert(k.subrange(base + j * 64, base + j * 64 + 64) =~= k0.subrange(
            j * 64,
            j * 64 + 64,
        ));
    }
    assert(score_row(q, k, base, seq, 64, true, i) =~= score_row(q0, k0, 0, seq, 64, true, i));
    assert(component(v, base, 64, d, seq) =~= component(v0, 0, 64, d, seq));
}

/// A cell of the attention launch is that of the reference.
proof fn lemma_attention_cell<S: Scalar>(
    qkv: Seq<S>,
    before: S,
    seq: nat,
    h: int,
    i: int,
    d: int,
)
    requires
        exact::<S>(),
        0 <= h < 12,
        0 <= i < seq,
        0 <= d < 64,
    ensures
        attention_cell(
            split_launch(qkv, 0, seq),
            split_launch(qkv, 1, seq),
            split_launch(qkv, 2, seq),
            before,
            seq as int,
            h,
            i,
            d,
        ) == head_output(qkv, h, seq, small())[i * 64 + d],
{
    let q = split_launch(qkv, 0, seq);
    let k = split_launch(qkv, 1, seq);
    let v = split_launch(qkv, 2, seq);
    let base = h * seq * 64;
    lemma_split(qkv, 0, seq, h);
    lemma_split(qkv, 1, seq, h);
    lemma_split(qkv, 2, seq, h);
    let t = tiles_seen(i / 32, seq as int, true);
    assert forall|j: int| 0 <= j < seq && !(true && j > i) implies counts(
        #[trigger] score(q, k, base, 64, true, i, j),
    ) by {
        reveal(products_count);
    }
    lemma_row_positive(q, k, v, base, seq as int, 64, true, i, t);
    tiled_attention_is_attention(q, k, v, base, seq as int, 64, true, i / 32, i, d);
    lemma_attended_part(q, k, v, base, seq, i, d);
    let q0 = head_part(qkv, 0, h, seq, small());
    let k0 = head_part(qkv, 1, h, seq, small());
    let v0 = head_part(qkv, 2, h, seq, small());
    assert forall|j: int| 0 <= j <= i implies counts(#[trigger] score(q0, k0, 0, 64, true, i, j)) by {
        reveal(products_count);
    }
    attentions_agree(q0, k0, v0, seq, 64, i, d);
}

/// Split, attention and join together are the reference's attention.
proof fn lemma_attention<S: Scalar>(qkv: Seq<S>, before: Seq<S>, seq: nat)
    requires
        exact::<S>(),
        seq > 0,
    ensures
        concat_launch(
            attention_launch(
                split_launch(qkv, 0, seq),
                split_launch(qkv, 1, seq),
                split_launch(qkv, 2, seq),
                before,
                seq,
            ),
            seq,
        ) == attention_value(qkv, seq, small()),
{
    let out = attention_launch(
        split_launch(qkv, 0, seq),
        split_launch(qkv, 1, seq),
        split_launch(qkv, 2, seq),
        before,
        seq,
    );
    let got = concat_launch(out, seq);
    let want = attention_value(qkv, seq, small());
    let m = (seq * 64) as int;
    assert forall|x: int| 0 <= x < seq * 768 implies #[trigger] got[x] == want[x] by {
        let s = x / 768;
        let c = x % 768;
        let h = c / 64;
        let d = c % 64;
        assert(x % 64 == d);
        let at = head_major_index(x, seq as int, 12, 64);
        assert(at == h * seq * 64 + s * 64 + d);
        assert(h * seq * 64 == h * m) by (nonlinear_arith)
            requires
                m == seq * 64,
        ;
        let y = s * 64 + d;
        assert(0 <= y < m);
        lemma_cell(h, 12, y, m);
        assert(12 * m == seq * 768);
        assert(y / 64 == s && y % 64 == d);
        lemma_attention_cell(qkv, before[at], seq, h, s, d);
        assert(got[x] == out[at]);
    }
    assert(got =~= want);
}

/// The attention half of a layer adds to the hidden state what the reference adds.
proof fn lemma_attention_half<S: Scalar>(p: Pass<S>, b: Buffers<S>, layer: u32)
    requires
        exact::<S>(),
        p.wf(),
        layer < 12,
        b.hidden.len() == p.seq * 768,
    ensures
        run(p, b, attention_launches(layer, p.seq as int)).hidden == added(
            b.hidden,
            attention_branch(b.hidden, p.layers[layer as int], small(), p.seq, p.eps),
        ),
{
    let seq = p.seq as int;
    let w = p.layers[layer as int];
    assert(w.wf(small()));
    let l0 = Seq::<Launch>::empty();
    let a1 = launch_of(layer, Op::LayerNorm { weight: Weight::Ln1 }, seq);
    let a2 = launch_of(
        layer,
        Op::Gemm {
            input: Buffer::LnOut,
            weight: Weight::Qkv,
            output: Buffer::Qkv,
            k: 768,
            n: 2304,
        },
        seq,
    );
    let a3 = launch_of(
        layer,
        Op::BiasAdd { data: Buffer::Qkv, weight: Weight::Qkv, n: 2304 },
        seq,
    );
    let a4 = launch_of(layer, Op::SplitQkv, seq);
    let a5 = launch_of(layer, Op::FlashAttention, seq);
    let a6 = launch_of(layer, Op::ConcatHeads, seq);
    let a7 = launch_of(
        layer,
        Op::Gemm {
            input: Buffer::Concat,
            weight: Weight::Proj,
            output: Buffer::ProjOut,
            k: 768,
            n: 768,
        },
        seq,
    );
    let a8 = launch_of(
        layer,
        Op::BiasAdd { data: Buffer::ProjOut, weight: Weight::Proj, n: 768 },
        seq,
    );
    let a9 = launch_of(layer, Op::AddResidual { from: Buffer::ProjOut }, seq);
    let l1 = l0.push(a1);
    let l2 = l1.push(a2);
    let l3 = l2.push(a3);
    let l4 = l3.push(a4);
    let l5 = l4.push(a5);
    let l6 = l5.push(a6);
    let l7 = l6.push(a7);
    let l8 = l7.push(a8);
    let l9 = l8.push(a9);
    assert(attention_launches(layer, seq) =~= l9);
    assert(run(p, b, l0) == b);
    lemma_run_push(p, b, l0, a1);
    lemma_run_push(p, b, l1, a2);
    lemma_run_push(p, b, l2, a3);
    lemma_run_push(p, b, l3, a4);
    lemma_run_push(p, b, l4, a5);
    lemma_run_push(p, b, l5, a6);
    lemma_run_push(p, b, l6, a7);
    lemma_run_push(p, b, l7, a8);
    lemma_run_push(p, b, l8, a9);
    let b1 = executed(p, b, a1);
    let b2 = executed(p, b1, a2);
    let b3 = executed(p, b2, a3);
    let b4 = executed(p, b3, a4);
    let b5 = executed(p, b4, a5);
    let b6 = executed(p, b5, a6);
    let b7 = executed(p, b6, a7);
    let b8 = executed(p, b7, a8);
    let b9 = executed(p, b8, a9);
    lemma_norm(b.hidden, w.ln_1_weight@, w.ln_1_bias@, p.seq, p.eps);
    lemma_gemm(b1.ln_out, w.c_attn_weight@, p.seq, 768, 2304);
    assert(b3.qkv == biased(b2.qkv, w.c_attn_bias@, 2304));
    lemma_attention(b3.qkv, b4.attn_out, p.seq);
    assert(b6.concat == attention_value(b3.qkv, p.seq, small()));
    lemma_gemm(b6.concat, w.c_proj_weight@, p.seq, 768, 768);
    assert(b8.proj_out == biased(b7.proj_out, w.c_proj_bias@, 768));
    assert(b8.hidden == b.hidden);
    assert(b9.hidden == added(b.hidden, b8.proj_out));
}

/// The feed-forward half of a layer adds to the hidden state what the reference adds.
proof fn lemma_feed_forward_half<S: Scalar>(p: Pass<S>, b: Buffers<S>, layer: u32)
    requires
        exact::<S>(),
        p.wf(),
        layer < 12,
        b.hidden.len() == p.seq * 768,
    ensures
        run(p, b, feed_forward_launches(layer, p.seq as int)).hidden == added(
            b.hidden,
            feed_forward_branch(b.hidden, p.layers[layer as int], small(), p.seq, p.eps),
        ),
{
    let seq = p.seq as int;
    let w = p.layers[layer as int];
    assert(w.wf(small()));
    let l0 = Seq::<Launch>::empty();
    let a1 = launch_of(layer, Op::LayerNorm { weight: Weight::Ln2 }, seq);
    let a2 = launch_of(
        layer,
        Op::Gemm {
            input: Buffer::LnOut,
            weight: Weight::Fc,
            output: Buffer::FfnHidden,
            k: 768,
            n: 3072,
        },
        seq,
    );
    let a3 = launch_of(
        layer,
        Op::BiasAdd { data: Buffer::FfnHidden, weight: Weight::Fc, n: 3072 },
        seq,
    );
    let a4 = launch_of(layer, Op::Gelu, seq);
    let a5 = launch_of(
        layer,
        Op::Gemm {
            input: Buffer::GeluOut,
            weight: Weight::FcProj,
            output: Buffer::FfnOut,
            k: 3072,
            n: 768,
        },
        seq,
    );
    let a6 = launch_of(
        layer,
        Op::BiasAdd { data: Buffer::FfnOut, weight: Weight::FcProj, n: 768 },
        seq,
    );
    let a7 = launch_of(layer, Op::AddResidual { from: Buffer::FfnOut }, seq);
    let l1 = l0.push(a1);
    let l2 = l1.push(a2);
    let l3 = l2.push(a3);
    let l4 = l3.push(a4);
    let l5 = l4.push(a5);
    let l6 = l5.push(a6);
    let l7 = l6.push(a7);
    assert(feed_forward_launches(layer, seq) =~= l7);
    assert(run(p, b, l0) == b);
    lemma_run_push(p, b, l0, a1);
    lemma_run_push(p, b, l1, a2);
    lemma_run_push(p, b, l2, a3);
    lemma_run_push(p, b, l3, a4);
    lemma_run_push(p, b, l4, a5);
    lemma_run_push(p, b, l5, a6);
    lemma_run_push(p, b, l6, a7);
    let b1 = executed(p, b, a1);
    let b2 = executed(p, b1, a2);
    let b3 = executed(p, b2, a3);
    let b4 = executed(p, b3, a4);
    let b5 = executed(p, b4, a5);
    let b6 = executed(p, b5, a6);
    let b7 = executed(p, b6, a7);
    lemma_norm(b.hidden, w.ln_2_weight@, w.ln_2_bias@, p.seq, p.eps);
    lemma_gemm(b1.ln_out, w.mlp_fc_weight@, p.seq, 768, 3072);
    assert(b3.ffn_hidden == biased(b2.ffn_hidden, w.mlp_fc_bias@, 3072));
    assert(b4.gelu_out =~= activated(b3.ffn_hidden)) by {
        assert forall|i: int| 0 <= i < b3.ffn_hidden.len() implies #[trigger] b4.gelu_out[i]
            == activated(b3.ffn_hidden)[i] by {
            activations_agree(b3.ffn_hidden[i]);
        }
    }
    lemma_gemm(b4.gelu_out, w.mlp_proj_weight@, p.seq, 3072, 768);
    assert(b6.ffn_out == biased(b5.ffn_out, w.mlp_proj_bias@, 768));
    assert(b6.hidden == b.hidden);
    assert(b7.hidden == added(b.hidden, b6.ffn_out));
}

/// Clearing the padding clears the rows behind the tokens.
proof fn lemma_pad<S: Scalar>(p: Pass<S>, b: Buffers<S>, layer: u32)
    requires
        p.wf(),
        p.seq <= 1024,
        b.hidden.len() == p.seq * 768,
    ensures
        run(p, b, pad_launches(layer, p.tokens.len() as int, p.seq as int)).hidden == cleared(
            b.hidden,
            p.tokens.len() as int,
            768,
        ),
{
    let n = p.tokens.len() as int;
    let seq = p.seq as int;
    let launches = pad_launches(layer, n, seq);
    if n < seq {
        let a = launch_of(layer, Op::ZeroPad { start: (n * 768) as u32 }, seq);
        assert(launches =~= Seq::<Launch>::empty().push(a));
        lemma_run_push(p, b, Seq::empty(), a);
        assert(run(p, b, Seq::empty()) == b);
        assert(executed(p, b, a).hidden =~= cleared(b.hidden, n, 768));
    } else {
        assert(launches =~= Seq::<Launch>::empty());
        assert(b.hidden =~= cleared(b.hidden, n, 768));
    }
}

proof fn lemma_layer<S: Scalar>(p: Pass<S>, b: Buffers<S>, layer: u32)
    requires
        exact::<S>(),
        p.wf(),
        p.seq <= 1024,
        layer < 12,
        b.hidden.len() == p.seq * 768,
    ensures
        run(
            p,
            b,
            layer_launches(layer, p.tokens.len() as int, p.seq as int),
        ).hidden == layer_value(
            b.hidden,
            p.layers[layer as int],
            small(),
            p.seq,
            p.tokens.len() as int,
            p.eps,
        ),
{
    let n = p.tokens.len() as int;
    let seq = p.seq as int;
    let first = attention_launches(layer, seq);
    let pad = pad_launches(layer, n, seq);
    let second = feed_forward_launches(layer, seq);
    let b1 = run(p, b, first);
    let b2 = run(p, b1, pad);
    let b3 = run(p, b2, second);
    lemma_attention_half(p, b, layer);
    lemma_pad(p, b1, layer);
    lemma_feed_forward_half(p, b2, layer);
    lemma_pad(p, b3, layer);
    lemma_run_append(p, b, first + pad + second, pad);
    lemma_run_append(p, b, first + pad, second);
    lemma_run_append(p, b, first, pad);
}

proof fn lemma_layers<S: Scalar>(p: Pass<S>, b: Buffers<S>, n: nat)
    requires
        exact::<S>(),
        p.wf(),
        p.seq <= 1024,
        n <= 12,
        b.hidden.len() == p.seq * 768,
    ensures
        run(
            p,
            b,
            layers_launches(n, p.tokens.len() as int, p.seq as int),
        ).hidden == layers_value(
            b.hidden,
            p.layers,
            small(),
            p.seq,
            p.tokens.len() as int,
            p.eps,
            n,
        ),
        run(
            p,
            b,
            layers_launches(n, p.tokens.len() as int, p.seq as int),
        ).hidden.len() == p.seq * 768,
    decreases n,
{
    let actual = p.tokens.len() as int;
    let seq = p.seq as int;
    if n > 0 {
        let before = layers_launches((n - 1) as nat, actual, seq);
        lemma_layers(p, b, (n - 1) as nat);
        lemma_layer(p, run(p, b, before), (n - 1) as u32);
        lemma_run_append(p, b, before, layer_launches((n - 1) as u32, actual, seq));
    }
}

/// In exact arithmetic, the launches of a forward pass leave what the reference computes,
/// whatever the buffers held before.
pub proof fn launches_compute_the_forward_pass<S: Scalar>(p: Pass<S>, b: Buffers<S>)
    requires
        exact::<S>(),
        p.wf(),
        p.seq <= 1024,
    ensures
        run(p, b, forward_launches(p.tokens.len() as int, p.seq as int)).ln_out == forward_value(
            p.tokens,
            p.wte,
            p.wpe,
            p.layers,
            p.ln_f_weight,
            p.ln_f_bias,
            small(),
            p.seq,
            p.eps,
        ),
{
    let n = p.tokens.len() as int;
    let seq = p.seq as int;
    let embed = launch_of(0, Op::Embed, seq);
    let pad = pad_launches(0, n, seq);
    let layers = layers_launches(12, n, seq);
    let last = launch_of(12, Op::LayerNorm { weight: Weight::LnFinal }, seq);
    let start = seq![embed];
    assert(start =~= Seq::<Launch>::empty().push(embed));
    lemma_run_push(p, b, Seq::empty(), embed);
    assert(run(p, b, Seq::<Launch>::empty()) == b);
    let b1 = run(p, b, start);
    assert(b1.hidden.len() == p.seq * 768);
    lemma_pad(p, b1, 0);
    let b2 = run(p, b1, pad);
    let want = embedded_tokens(p.tokens, p.wte, p.wpe, 768, p.seq);
    assert forall|i: int| 0 <= i < p.seq * 768 implies #[trigger] b2.hidden[i] == want[i] by {
        let pos = i / 768;
        if pos < n {
            assert(i < n * 768);
            assert(p.token_ids()[pos] == p.tokens[pos]);
        } else {
            assert(i >= n * 768);
        }
    }
    assert(b2.hidden =~= want);
    lemma_layers(p, b2, 12);
    let b3 = run(p, b2, layers);
    lemma_run_append(p, b, start, pad);
    lemma_run_append(p, b, start + pad, layers);
    lemma_run_append(p, b, start + pad + layers, seq![last]);
    assert(seq![last] =~= Seq::<Launch>::empty().push(last));
    lemma_run_push(p, b3, Seq::empty(), last);
    assert(run(p, b3, Seq::<Launch>::empty()) == b3);
    lemma_norm(b3.hidden, p.ln_f_weight, p.ln_f_bias, p.seq, p.eps);
}

} // verus!
