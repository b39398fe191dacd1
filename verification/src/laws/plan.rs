//! Laws of the launches of a forward pass.

use vstd::prelude::*;

use crate::inference::plan::{
    forward_launches, launch_of, layer_launches, layers_launches, rows_fit, Buffer, Launch, Op,
    Weight,
};

verus! {

/// How many launches a layer has.
spec fn layer_size(actual: int, seq: int) -> int {
    if actual < seq {
        18
    } else {
        16
    }
}

/// How many launches come before the first layer.
spec fn head_size(actual: int, seq: int) -> int {
    if actual < seq {
        2
    } else {
        1
    }
}

proof fn lemma_layers(n: nat, actual: int, seq: int, l: int, j: int)
    requires
        0 <= l < n <= 12,
        0 <= j < layer_size(actual, seq),
    ensures
        layers_launches(n, actual, seq).len() == n * layer_size(actual, seq),
        layers_launches(n, actual, seq)[l * layer_size(actual, seq) + j] == layer_launches(
            l as u32,
            actual,
            seq,
        )[j],
    decreases n,
{
    let k = layer_size(actual, seq);
    let before = layers_launches((n - 1) as nat, actual, seq);
    assert(layer_launches((n - 1) as u32, actual, seq).len() == k);
    assert(n * k == (n - 1) * k + k && (l < n - 1 ==> l * k + k <= (n - 1) * k) && 0 <= l * k)
        by (nonlinear_arith)
        requires
            k >= 0,
            0 <= l < n,
    ;
    assert(layers_launches(n, actual, seq) == before + layer_launches(
        (n - 1) as u32,
        actual,
        seq,
    ));
    if n > 1 {
        if l < n - 1 {
            lemma_layers((n - 1) as nat, actual, seq, l, j);
        } else {
            lemma_layers((n - 1) as nat, actual, seq, 0, 0);
        }
    } else {
        assert(layers_launches(0, actual, seq).len() == 0);
    }
}

/// A launch of a pass is one of a layer, or one around the layers.
proof fn lemma_where(actual: int, seq: int, i: int) -> (at: (int, int))
    requires
        0 <= actual <= seq,
        head_size(actual, seq) <= i < head_size(actual, seq) + 12 * layer_size(actual, seq),
    ensures
        0 <= at.0 < 12,
        0 <= at.1 < layer_size(actual, seq),
        i == head_size(actual, seq) + at.0 * layer_size(actual, seq) + at.1,
        forward_launches(actual, seq).len() == head_size(actual, seq) + 12 * layer_size(actual, seq)
            + 1,
{
    let k = layer_size(actual, seq);
    let x = i - head_size(actual, seq);
    lemma_at(actual, seq, 0, 0);
    if k == 18 {
        (x / 18, x % 18)
    } else {
        (x / 16, x % 16)
    }
}

proof fn lemma_at(actual: int, seq: int, l: int, j: int)
    requires
        0 <= actual <= seq,
        0 <= l < 12,
        0 <= j < layer_size(actual, seq),
    ensures
        forward_launches(actual, seq).len() == head_size(actual, seq) + 12 * layer_size(actual, seq)
            + 1,
        forward_launches(actual, seq)[head_size(actual, seq) + l * layer_size(actual, seq) + j]
            == layer_launches(l as u32, actual, seq)[j],
{
    lemma_layers(12, actual, seq, l, j);
}

proof fn lemma_ends(actual: int, seq: int)
    requires
        0 <= actual <= seq,
    ensures
        ({
            let plan = forward_launches(actual, seq);
            &&& plan.len() == head_size(actual, seq) + 12 * layer_size(actual, seq) + 1
            &&& plan[0] == launch_of(0, Op::Embed, seq)
            &&& actual < seq ==> plan[1].op == Op::ZeroPad { start: (actual * 768) as u32 }
            &&& plan.last() == launch_of(12, Op::LayerNorm { weight: Weight::LnFinal }, seq)
        }),
{
    lemma_at(actual, seq, 0, 0);
}

/// The launch before a product with the joint projection applies the layer's first
/// normalization, the launch before the first product of the feed-forward half its second, and
/// both products take what was normalized. The last launch of a pass applies the last
/// normalization, and no other one does.
pub proof fn normalizations_come_before_their_products(actual: int, seq: int, i: int)
    requires
        0 <= actual <= seq,
        0 <= i < forward_launches(actual, seq).len(),
    ensures
        ({
            let plan = forward_launches(actual, seq);
            let launch = plan[i];
            &&& launch.op matches Op::Gemm { input, weight, .. } ==> weight == Weight::Qkv ==> {
                &&& i > 0
                &&& plan[i - 1].op == Op::LayerNorm { weight: Weight::Ln1 }
                &&& plan[i - 1].layer == launch.layer
                &&& input == Buffer::LnOut
            }
            &&& launch.op matches Op::Gemm { input, weight, .. } ==> weight == Weight::Fc ==> {
                &&& i > 0
                &&& plan[i - 1].op == Op::LayerNorm { weight: Weight::Ln2 }
                &&& plan[i - 1].layer == launch.layer
                &&& input == Buffer::LnOut
            }
            &&& launch.op == Op::LayerNorm { weight: Weight::LnFinal } <==> i == plan.len() - 1
        }),
{
    lemma_ends(actual, seq);
    let h = head_size(actual, seq);
    let k = layer_size(actual, seq);
    if h <= i < h + 12 * k {
        let (l, j) = lemma_where(actual, seq, i);
        lemma_at(actual, seq, l, j);
        if j > 0 {
            lemma_at(actual, seq, l, j - 1);
        }
    }
}

/// A launch applies a weight of a layer: a normalization its scale and shift, a product its
/// matrix.
pub open spec fn applies(launch: Launch, layer: u32, weight: Weight) -> bool {
    &&& launch.layer == layer
    &&& match launch.op {
        Op::LayerNorm { weight: w } => w == weight && (weight == Weight::Ln1 || weight
            == Weight::Ln2),
        Op::Gemm { weight: w, .. } => w == weight && (weight == Weight::Qkv || weight
            == Weight::Proj || weight == Weight::Fc || weight == Weight::FcProj),
        _ => false,
    }
}

/// The step of a layer at which a weight is applied.
spec fn weight_step(weight: Weight) -> int {
    match weight {
        Weight::Ln1 => 0,
        Weight::Qkv => 1,
        Weight::Proj => 6,
        Weight::Ln2 => 9,
        Weight::Fc => 10,
        Weight::FcProj => 13,
        Weight::LnFinal => 0,
    }
}

/// Each weight of each layer is applied once: by a launch that is in the plan, and by no other.
pub proof fn each_weight_is_applied_once(actual: int, seq: int, layer: u32, weight: Weight) -> (at:
    int)
    requires
        0 <= actual <= seq,
        layer < 12,
        weight != Weight::LnFinal,
    ensures
        0 <= at < forward_launches(actual, seq).len(),
        applies(forward_launches(actual, seq)[at], layer, weight),
        forall|i: int|
            0 <= i < forward_launches(actual, seq).len() && i != at ==> !applies(
                #[trigger] forward_launches(actual, seq)[i],
                layer,
                weight,
            ),
{
    let plan = forward_launches(actual, seq);
    let h = head_size(actual, seq);
    let k = layer_size(actual, seq);
    let s = weight_step(weight);
    let j0 = if actual < seq && s >= 9 {
        s + 1
    } else {
        s
    };
    let at = h + layer * k + j0;
    lemma_ends(actual, seq);
    lemma_at(actual, seq, layer as int, j0);
    assert forall|i: int| 0 <= i < plan.len() && i != at implies !applies(
        #[trigger] plan[i],
        layer,
        weight,
    ) by {
        if h <= i < h + 12 * k {
            let (l, j) = lemma_where(actual, seq, i);
            lemma_at(actual, seq, l, j);
        }
    }
    at
}

/// A product is followed by its own bias, which is added to what the product wrote.
pub proof fn biases_follow_their_products(actual: int, seq: int, i: int)
    requires
        0 <= actual <= seq,
        0 <= i < forward_launches(actual, seq).len(),
        forward_launches(actual, seq)[i].op is Gemm,
    ensures
        i + 1 < forward_launches(actual, seq).len(),
        ({
            let plan = forward_launches(actual, seq);
            &&& plan[i].op matches Op::Gemm { weight, output, n, .. }
            &&& plan[i + 1].op == Op::BiasAdd { data: output, weight, n }
            &&& plan[i + 1].layer == plan[i].layer
        }),
{
    lemma_ends(actual, seq);
    let (l, j) = lemma_where(actual, seq, i);
    lemma_at(actual, seq, l, j);
    lemma_at(actual, seq, l, j + 1);
}

/// What is added to the hidden state is what the launch before it finished: the projection
/// behind attention or the projection down, with its bias.
pub proof fn residuals_are_finished_products(actual: int, seq: int, i: int)
    requires
        0 <= actual <= seq,
        0 <= i < forward_launches(actual, seq).len(),
        forward_launches(actual, seq)[i].op is AddResidual,
    ensures
        i > 0,
        ({
            let plan = forward_launches(actual, seq);
            &&& plan[i].op matches Op::AddResidual { from }
            &&& plan[i - 1].op matches Op::BiasAdd { data, weight, .. }
            &&& data == from
            &&& weight == Weight::Proj || weight == Weight::FcProj
            &&& plan[i - 1].layer == plan[i].layer
        }),
{
    lemma_ends(actual, seq);
    let (l, j) = lemma_where(actual, seq, i);
    lemma_at(actual, seq, l, j);
    lemma_at(actual, seq, l, j - 1);
}

/// The queries, keys and values are split right after the joint projection got its bias, then
/// attended to, then joined, and the product behind takes what was joined.
pub proof fn attention_takes_the_joint_projection(actual: int, seq: int, i: int)
    requires
        0 <= actual <= seq,
        0 <= i < forward_launches(actual, seq).len(),
        forward_launches(actual, seq)[i].op is FlashAttention,
    ensures
        2 <= i < forward_launches(actual, seq).len() - 2,
        ({
            let plan = forward_launches(actual, seq);
            &&& plan[i - 2].op == Op::BiasAdd { data: Buffer::Qkv, weight: Weight::Qkv, n: 2304 }
            &&& plan[i - 1].op == Op::SplitQkv
            &&& plan[i + 1].op == Op::ConcatHeads
            &&& plan[i + 2].op matches Op::Gemm { input, weight, .. }
            &&& input == Buffer::Concat
            &&& weight == Weight::Proj
        }),
{
    lemma_ends(actual, seq);
    let (l, j) = lemma_where(actual, seq, i);
    lemma_at(actual, seq, l, j);
    lemma_at(actual, seq, l, j - 2);
    lemma_at(actual, seq, l, j - 1);
    lemma_at(actual, seq, l, j + 1);
    lemma_at(actual, seq, l, j + 2);
}

/// The activation is applied to the projection up with its bias, and the product behind takes
/// the result.
pub proof fn activation_stands_between_the_projections(actual: int, seq: int, i: int)
    requires
        0 <= actual <= seq,
        0 <= i < forward_launches(actual, seq).len(),
        forward_launches(actual, seq)[i].op is Gelu,
    ensures
        1 <= i < forward_launches(actual, seq).len() - 1,
        ({
            let plan = forward_launches(actual, seq);
            &&& plan[i - 1].op == Op::BiasAdd {
                data: Buffer::FfnHidden,
                weight: Weight::Fc,
                n: 3072,
            }
            &&& plan[i + 1].op matches Op::Gemm { input, weight, .. }
            &&& input == Buffer::GeluOut
            &&& weight == Weight::FcProj
        }),
{
    lemma_ends(actual, seq);
    let (l, j) = lemma_where(actual, seq, i);
    lemma_at(actual, seq, l, j);
    lemma_at(actual, seq, l, j - 1);
    lemma_at(actual, seq, l, j + 1);
}

/// The layers come one after the other, from the first to the last.
pub proof fn layers_come_in_order(actual: int, seq: int, i: int, j: int)
    requires
        0 <= actual <= seq,
        0 <= i <= j < forward_launches(actual, seq).len(),
    ensures
        forward_launches(actual, seq)[i].layer <= forward_launches(actual, seq)[j].layer <= 12,
        forward_launches(actual, seq)[0].op == Op::Embed,
        i > 0 ==> !(forward_launches(actual, seq)[i].op is Embed),
{
    let h = head_size(actual, seq);
    let k = layer_size(actual, seq);
    lemma_ends(actual, seq);
    if h <= i < h + 12 * k {
        let (l, s) = lemma_where(actual, seq, i);
        lemma_at(actual, seq, l, s);
    }
    if h <= j < h + 12 * k {
        let (m, t) = lemma_where(actual, seq, j);
        lemma_at(actual, seq, m, t);
    }
}

/// Normalizations run one block for each row, attention one for each head and each 32 queries,
/// and products one for each 32 rows and 16 columns.
pub proof fn launches_have_a_block_for_each_part(layer: u32, op: Op, seq: u32)
    requires
        rows_fit(seq),
    ensures
        op is LayerNorm ==> launch_of(layer, op, seq as int).config.grid_x == seq,
        op is FlashAttention ==> {
            let c = launch_of(layer, op, seq as int).config;
            &&& c.grid_x * 64 == 768
            &&& seq <= c.grid_y * 32 < seq + 32
            &&& c.shared_mem_bytes == 2 * 32 * 64 * 4
        },
        op matches Op::Gemm { n, .. } ==> {
            let c = launch_of(layer, op, seq as int).config;
            &&& c.grid_x * 32 == seq
            &&& n % 16 == 0 ==> c.grid_y * 16 == n
            &&& c.shared_mem_bytes == (32 * 16 + 16 * 16) * 4
        },
{
}

} // verus!
