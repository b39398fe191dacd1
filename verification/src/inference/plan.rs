//! The launches of a forward pass.
//!
//! A pass embeds the tokens, clears the rows of padding, runs all layers and
//! normalizes the result. Clearing the padding after every residual keeps values
//! that grow there from reaching the matrix tiles.

use vstd::prelude::*;

verus! {

/// The width of a row of the hidden state.
pub const D_MODEL: u32 = 768;

/// The width of a row of the joint projection.
pub const D_QKV: u32 = 2304;

/// The width of a row inside the feed-forward half.
pub const D_FFN: u32 = 3072;

/// The number of heads.
pub const N_HEADS: u32 = 12;

/// The width of a head.
pub const D_HEAD: u32 = 64;

/// The number of layers.
pub const N_LAYERS: u32 = 12;

/// The shared memory of the matrix kernel: a 32x16 and a 16x16 tile.
pub const GEMM_SHARED: u32 = 3072;

/// The shared memory of the attention kernel: two 32x64 tiles.
pub const ATTENTION_SHARED: u32 = 16384;

/// An activation buffer on the device.
#[derive(Clone, Copy, Debug, PartialEq, Eq, Structural)]
pub enum Buffer {
    Hidden,
    LnOut,
    Qkv,
    Query,
    Key,
    Value,
    AttnOut,
    Concat,
    ProjOut,
    FfnHidden,
    GeluOut,
    FfnOut,
}

/// A weight tensor of a layer, or of the final normalization.
#[derive(Clone, Copy, Debug, PartialEq, Eq, Structural)]
pub enum Weight {
    Ln1,
    Qkv,
    Proj,
    Ln2,
    Fc,
    FcProj,
    LnFinal,
}

/// What a launch does.
#[derive(Clone, Copy, Debug, PartialEq, Eq, Structural)]
pub enum Op {
    /// Embed the tokens into the hidden state.
    Embed,
    /// Clear the hidden state from `start` on.
    ZeroPad { start: u32 },
    /// Normalize the hidden state into the normalization buffer.
    LayerNorm { weight: Weight },
    /// Multiply `input`, with rows of `k`, by a weight, into rows of `n`.
    Gemm { input: Buffer, weight: Weight, output: Buffer, k: u32, n: u32 },
    /// Add a weight's bias to rows of `n`.
    BiasAdd { data: Buffer, weight: Weight, n: u32 },
    /// Split the joint projection into queries, keys and values.
    SplitQkv,
    /// Causal attention.
    FlashAttention,
    /// Join the heads.
    ConcatHeads,
    /// Apply the activation.
    Gelu,
    /// Add a buffer to the hidden state.
    AddResidual { from: Buffer },
}

/// The grid, the block and the shared memory of a launch.
#[derive(Clone, Copy, Debug, PartialEq, Eq, Structural)]
pub struct LaunchConfig {
    pub grid_x: u32,
    pub grid_y: u32,
    pub block_x: u32,
    pub shared_mem_bytes: u32,
}

/// A launch: the layer whose weights it uses, what it does, and its shape.
#[derive(Clone, Copy, Debug, PartialEq, Eq, Structural)]
pub struct Launch {
    pub layer: u32,
    pub op: Op,
    pub config: LaunchConfig,
}

/// The number of elements of a buffer in a pass over `seq` rows.
pub open spec fn buffer_size(buffer: Buffer, seq: int) -> int {
    match buffer {
        Buffer::Qkv => seq * 2304,
        Buffer::FfnHidden | Buffer::GeluOut => seq * 3072,
        _ => seq * 768,
    }
}

/// How many threads a launch needs that runs one for each element, or `None` for the
/// kernels that work by rows or tiles.
pub open spec fn elements_of(op: Op, seq: int) -> Option<int> {
    match op {
        Op::Embed | Op::SplitQkv | Op::ConcatHeads | Op::AddResidual { .. } => Some(seq * 768),
        Op::ZeroPad { start } => Some(seq * 768 - start),
        Op::BiasAdd { data, .. } => Some(buffer_size(data, seq)),
        Op::Gelu => Some(seq * 3072),
        _ => None,
    }
}

/// The shape of a launch.
pub open spec fn config_of(op: Op, seq: int) -> LaunchConfig {
    match elements_of(op, seq) {
        Some(n) => LaunchConfig {
            grid_x: ((n + 255) / 256) as u32,
            grid_y: 1,
            block_x: 256,
            shared_mem_bytes: 0,
        },
        None => match op {
            Op::Gemm { n, .. } => LaunchConfig {
                grid_x: (seq / 32) as u32,
                grid_y: (n / 16) as u32,
                block_x: 128,
                shared_mem_bytes: GEMM_SHARED,
            },
            Op::FlashAttention => LaunchConfig {
                grid_x: N_HEADS,
                grid_y: ((seq + 31) / 32) as u32,
                block_x: 32,
                shared_mem_bytes: ATTENTION_SHARED,
            },
            _ => LaunchConfig { grid_x: seq as u32, grid_y: 1, block_x: 32, shared_mem_bytes: 0 },
        },
    }
}

pub open spec fn launch_of(layer: u32, op: Op, seq: int) -> Launch {
    Launch { layer, op, config: config_of(op, seq) }
}

/// The clearing of the padding behind `actual` tokens, if there is any.
pub open spec fn pad_launches(layer: u32, actual: int, seq: int) -> Seq<Launch> {
    if actual < seq {
        seq![launch_of(layer, Op::ZeroPad { start: (actual * 768) as u32 }, seq)]
    } else {
        Seq::empty()
    }
}

/// The attention half of a layer up to its residual.
pub open spec fn attention_launches(layer: u32, seq: int) -> Seq<Launch> {
    seq![
        launch_of(layer, Op::LayerNorm { weight: Weight::Ln1 }, seq),
        launch_of(layer, Op::Gemm {
            input: Buffer::LnOut,
            weight: Weight::Qkv,
            output: Buffer::Qkv,
            k: D_MODEL,
            n: D_QKV,
        }, seq),
        launch_of(layer, Op::BiasAdd { data: Buffer::Qkv, weight: Weight::Qkv, n: D_QKV }, seq),
        launch_of(layer, Op::SplitQkv, seq),
        launch_of(layer, Op::FlashAttention, seq),
        launch_of(layer, Op::ConcatHeads, seq),
        launch_of(layer, Op::Gemm {
            input: Buffer::Concat,
            weight: Weight::Proj,
            output: Buffer::ProjOut,
            k: D_MODEL,
            n: D_MODEL,
        }, seq),
        launch_of(layer, Op::BiasAdd { data: Buffer::ProjOut, weight: Weight::Proj, n: D_MODEL }, seq),
        launch_of(layer, Op::AddResidual { from: Buffer::ProjOut }, seq),
    ]
}

/// The feed-forward half of a layer up to its residual.
pub open spec fn feed_forward_launches(layer: u32, seq: int) -> Seq<Launch> {
    seq![
        launch_of(layer, Op::LayerNorm { weight: Weight::Ln2 }, seq),
        launch_of(layer, Op::Gemm {
            input: Buffer::LnOut,
            weight: Weight::Fc,
            output: Buffer::FfnHidden,
            k: D_MODEL,
            n: D_FFN,
        }, seq),
        launch_of(layer, Op::BiasAdd { data: Buffer::FfnHidden, weight: Weight::Fc, n: D_FFN }, seq),
        launch_of(layer, Op::Gelu, seq),
        launch_of(layer, Op::Gemm {
            input: Buffer::GeluOut,
            weight: Weight::FcProj,
            output: Buffer::FfnOut,
            k: D_FFN,
            n: D_MODEL,
        }, seq),
        launch_of(layer, Op::BiasAdd { data: Buffer::FfnOut, weight: Weight::FcProj, n: D_MODEL }, seq),
        launch_of(layer, Op::AddResidual { from: Buffer::FfnOut }, seq),
    ]
}

/// The launches of one layer.
pub open spec fn layer_launches(layer: u32, actual: int, seq: int) -> Seq<Launch> {
    attention_launches(layer, seq) + pad_launches(layer, actual, seq) + feed_forward_launches(
        layer,
        seq,
    ) + pad_launches(layer, actual, seq)
}

/// The launches of the first `n` layers.
pub open spec fn layers_launches(n: nat, actual: int, seq: int) -> Seq<Launch>
    decreases n,
{
    if n == 0 {
        Seq::empty()
    } else {
        layers_launches((n - 1) as nat, actual, seq) + layer_launches((n - 1) as u32, actual, seq)
    }
}

/// The launches of a pass over `actual` tokens in `seq` rows.
pub open spec fn forward_launches(actual: int, seq: int) -> Seq<Launch> {
    seq![launch_of(0, Op::Embed, seq)] + pad_launches(0, actual, seq) + layers_launches(
        N_LAYERS as nat,
        actual,
        seq,
    ) + seq![launch_of(N_LAYERS, Op::LayerNorm { weight: Weight::LnFinal }, seq)]
}

/// The rows of a pass: whole tiles, few enough for 32-bit sizes.
pub open spec fn rows_fit(seq: u32) -> bool {
    seq <= 1024 && seq % 32 == 0
}

/// The shape of a launch.
pub fn config(op: &Op, seq: u32) -> (r: LaunchConfig)
    requires
        rows_fit(seq),
        op matches Op::ZeroPad { start } ==> start <= seq * 768,
    ensures
        r == config_of(*op, seq as int),
{
    let n: u32 = match op {
        Op::Embed | Op::SplitQkv | Op::ConcatHeads | Op::AddResidual { .. } => seq * 768,
        Op::ZeroPad { start } => seq * 768 - *start,
        Op::BiasAdd { data, .. } => match data {
            Buffer::Qkv => seq * 2304,
            Buffer::FfnHidden | Buffer::GeluOut => seq * 3072,
            _ => seq * 768,
        },
        Op::Gelu => seq * 3072,
        Op::Gemm { n, .. } => {
            return LaunchConfig {
                grid_x: seq / 32,
                grid_y: *n / 16,
                block_x: 128,
                shared_mem_bytes: GEMM_SHARED,
            };
        },
        Op::FlashAttention => {
            return LaunchConfig {
                grid_x: N_HEADS,
                grid_y: (seq + 31) / 32,
                block_x: 32,
                shared_mem_bytes: ATTENTION_SHARED,
            };
        },
        Op::LayerNorm { .. } => {
            return LaunchConfig { grid_x: seq, grid_y: 1, block_x: 32, shared_mem_bytes: 0 };
        },
    };
    LaunchConfig { grid_x: (n + 255) / 256, grid_y: 1, block_x: 256, shared_mem_bytes: 0 }
}

fn push_op(plan: &mut Vec<Launch>, layer: u32, op: Op, seq: u32)
    requires
        rows_fit(seq),
        op matches Op::ZeroPad { start } ==> start <= seq * 768,
    ensures
        final(plan)@ == old(plan)@.push(launch_of(layer, op, seq as int)),
{
    let c = config(&op, seq);
    plan.push(Launch { layer, op, config: c });
}

fn push_pad(plan: &mut Vec<Launch>, layer: u32, actual: u32, seq: u32)
    requires
        rows_fit(seq),
        actual <= seq,
    ensures
        final(plan)@ == old(plan)@ + pad_launches(layer, actual as int, seq as int),
{
    let ghost before = plan@;
    if actual < seq {
        push_op(plan, layer, Op::ZeroPad { start: actual * 768 }, seq);
    }
    assert(plan@ =~= before + pad_launches(layer, actual as int, seq as int));
}

fn push_layer(plan: &mut Vec<Launch>, layer: u32, actual: u32, seq: u32)
    requires
        rows_fit(seq),
        actual <= seq,
    ensures
        final(plan)@ == old(plan)@ + layer_launches(layer, actual as int, seq as int),
{
    let ghost start = plan@;
    push_op(plan, layer, Op::LayerNorm { weight: Weight::Ln1 }, seq);
    push_op(
        plan,
        layer,
        Op::Gemm {
            input: Buffer::LnOut,
            weight: Weight::Qkv,
            output: Buffer::Qkv,
            k: D_MODEL,
            n: D_QKV,
        },
        seq,
    );
    push_op(plan, layer, Op::BiasAdd { data: Buffer::Qkv, weight: Weight::Qkv, n: D_QKV }, seq);
    push_op(plan, layer, Op::SplitQkv, seq);
    push_op(plan, layer, Op::FlashAttention, seq);
    push_op(plan, layer, Op::ConcatHeads, seq);
    push_op(
        plan,
        layer,
        Op::Gemm {
            input: Buffer::Concat,
            weight: Weight::Proj,
            output: Buffer::ProjOut,
            k: D_MODEL,
            n: D_MODEL,
        },
        seq,
    );
    push_op(plan, layer, Op::BiasAdd { data: Buffer::ProjOut, weight: Weight::Proj, n: D_MODEL }, seq);
    push_op(plan, layer, Op::AddResidual { from: Buffer::ProjOut }, seq);
    assert(plan@ =~= start + attention_launches(layer, seq as int));
    push_pad(plan, layer, actual, seq);
    let ghost mid = plan@;
    push_op(plan, layer, Op::LayerNorm { weight: Weight::Ln2 }, seq);
    push_op(
        plan,
        layer,
        Op::Gemm {
            input: Buffer::LnOut,
            weight: Weight::Fc,
            output: Buffer::FfnHidden,
            k: D_MODEL,
            n: D_FFN,
        },
        seq,
    );
    push_op(plan, layer, Op::BiasAdd { data: Buffer::FfnHidden, weight: Weight::Fc, n: D_FFN }, seq);
    push_op(plan, layer, Op::Gelu, seq);
    push_op(
        plan,
        layer,
        Op::Gemm {
            input: Buffer::GeluOut,
            weight: Weight::FcProj,
            output: Buffer::FfnOut,
            k: D_FFN,
            n: D_MODEL,
        },
        seq,
    );
    push_op(plan, layer, Op::BiasAdd { data: Buffer::FfnOut, weight: Weight::FcProj, n: D_MODEL }, seq);
    push_op(plan, layer, Op::AddResidual { from: Buffer::FfnOut }, seq);
    assert(plan@ =~= mid + feed_forward_launches(layer, seq as int));
    push_pad(plan, layer, actual, seq);
    assert(plan@ =~= start + layer_launches(layer, actual as int, seq as int));
}

/// The launches of a pass over `actual` tokens in `seq` rows.
pub fn forward_plan(actual: u32, seq: u32) -> (plan: Vec<Launch>)
    requires
        rows_fit(seq),
        actual <= seq,
    ensures
        plan@ == forward_launches(actual as int, seq as int),
{
    let mut plan: Vec<Launch> = Vec::new();
    push_op(&mut plan, 0, Op::Embed, seq);
    push_pad(&mut plan, 0, actual, seq);
    let ghost head = plan@;
    for layer in 0..N_LAYERS
        invariant
            rows_fit(seq),
            actual <= seq,
            plan@ == head + layers_launches(layer as nat, actual as int, seq as int),
    {
        let ghost before = plan@;
        push_layer(&mut plan, layer, actual, seq);
        assert(plan@ =~= head + layers_launches((layer + 1) as nat, actual as int, seq as int));
    }
    let ghost body = plan@;
    push_op(&mut plan, N_LAYERS, Op::LayerNorm { weight: Weight::LnFinal }, seq);
    assert(plan@ =~= forward_launches(actual as int, seq as int));
    plan
}

/// A launch that runs one thread for each element has enough of them, and not a whole
/// block too many.
pub proof fn launches_cover_their_elements(layer: u32, op: Op, seq: u32)
    requires
        rows_fit(seq),
        op matches Op::ZeroPad { start } ==> start <= seq * 768,
    ensures
        elements_of(op, seq as int) matches Some(n) ==> {
            let c = launch_of(layer, op, seq as int).config;
            n <= c.grid_x * c.block_x < n + 256
        },
{
}

/// The blocks of a matrix product tile its output exactly, and its operands have the
/// sizes of their buffers.
pub proof fn products_fill_their_buffers(layer: u32, actual: int, seq: u32, i: int)
    requires
        rows_fit(seq),
        0 <= actual <= seq,
        0 <= i < layer_launches(layer, actual, seq as int).len(),
    ensures
        layer_launches(layer, actual, seq as int)[i].op matches Op::Gemm {
            input,
            weight,
            output,
            k,
            n,
        } ==> {
            let c = layer_launches(layer, actual, seq as int)[i].config;
            &&& c.grid_x * 32 == seq
            &&& c.grid_y * 16 == n
            &&& buffer_size(input, seq as int) == seq * k
            &&& buffer_size(output, seq as int) == seq * n
        },
{
    let l = layer_launches(layer, actual, seq as int);
    let a = attention_launches(layer, seq as int);
    let p = pad_launches(layer, actual, seq as int);
    let f = feed_forward_launches(layer, seq as int);
    if i < a.len() {
        assert(l[i] == a[i]);
    } else if i < a.len() + p.len() {
        assert(l[i] == p[i - a.len()]);
    } else if i < a.len() + p.len() + f.len() {
        assert(l[i] == f[i - a.len() - p.len()]);
    } else {
        assert(l[i] == p[i - a.len() - p.len() - f.len()]);
    }
}

/// Wherever a residual is added and there is padding, the padding is cleared next.
pub proof fn padding_is_cleared_after_each_residual(layer: u32, actual: int, seq: int, i: int)
    requires
        0 <= actual < seq,
        0 <= i < layer_launches(layer, actual, seq).len(),
        layer_launches(layer, actual, seq)[i].op is AddResidual,
    ensures
        i + 1 < layer_launches(layer, actual, seq).len(),
        layer_launches(layer, actual, seq)[i + 1].op == (Op::ZeroPad {
            start: (actual * 768) as u32,
        }),
{
    let l = layer_launches(layer, actual, seq);
    let a = attention_launches(layer, seq);
    let p = pad_launches(layer, actual, seq);
    let f = feed_forward_launches(layer, seq);
    assert(p.len() == 1);
    if i < a.len() {
        assert(l[i] == a[i]);
        assert(i == 8);
        assert(l[9] == p[0]);
    } else if i < a.len() + 1 {
        assert(l[i] == p[0]);
    } else if i < a.len() + 1 + f.len() {
        assert(l[i] == f[i - a.len() - 1]);
        assert(i == 16);
        assert(l[17] == p[0]);
    } else {
        assert(l[i] == p[0]);
    }
}

/// A pass has the same number of launches whatever its tokens are: sixteen for a layer,
/// and two more where there is padding.
pub proof fn plan_length(actual: int, seq: int)
    requires
        0 <= actual <= seq,
    ensures
        forward_launches(actual, seq).len() == if actual < seq {
            2 + 12 * 18 + 1
        } else {
            1 + 12 * 16 + 1
        },
{
    lemma_layers_len(12, actual, seq);
}

proof fn lemma_layers_len(n: nat, actual: int, seq: int)
    ensures
        layers_launches(n, actual, seq).len() == n * (if actual < seq {
            18nat
        } else {
            16nat
        }),
    decreases n,
{
    if n > 0 {
        lemma_layers_len((n - 1) as nat, actual, seq);
    }
}

} // verus!
