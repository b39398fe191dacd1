//! Where the weights of a model come from.

use vstd::prelude::*;

use crate::model::archive::TensorModel;
use crate::model::weights::{loaded, taken, words_of, Gpt2Weights};
use crate::text::decimal_chars;

verus! {

/// The elements are those of the tensor with this name, which has 32-bit floating-point
/// elements and this shape.
pub open spec fn comes_from(
    data: Seq<u32>,
    tensors: Map<Seq<char>, TensorModel>,
    name: Seq<char>,
    shape: Seq<usize>,
) -> bool {
    &&& tensors.contains_key(name)
    &&& tensors[name].dtype == "F32"@
    &&& tensors[name].shape == shape
    &&& data == words_of(tensors[name].data)
}

/// After a load, the embeddings and the last normalization hold the tensors of their names.
pub proof fn embeddings_come_from_their_tensors(
    w: Gpt2Weights,
    tensors: Map<Seq<char>, TensorModel>,
)
    requires
        loaded(w, tensors),
    ensures
        comes_from(w.wte@, tensors, "wte.weight"@, seq![50257usize, 768usize]),
        comes_from(w.wpe@, tensors, "wpe.weight"@, seq![1024usize, 768usize]),
        comes_from(w.ln_f.weight@, tensors, "ln_f.weight"@, seq![768usize]),
        comes_from(w.ln_f.bias@, tensors, "ln_f.bias"@, seq![768usize]),
{
    assert(taken(w.tensor(0), tensors, 0));
    assert(taken(w.tensor(1), tensors, 1));
    assert(taken(w.tensor(2), tensors, 2));
    assert(taken(w.tensor(3), tensors, 3));
}

/// The name of a tensor of layer `i`, which ends with `end`.
pub open spec fn layer_tensor(i: int, end: Seq<char>) -> Seq<char> {
    "h."@ + decimal_chars(i as nat) + end
}

/// After a load there are twelve layers, and each field of a layer holds the tensor of its
/// name.
pub proof fn layers_come_from_their_tensors(
    w: Gpt2Weights,
    tensors: Map<Seq<char>, TensorModel>,
    i: int,
)
    requires
        loaded(w, tensors),
        0 <= i < 12,
    ensures
        w.layers@.len() == 12,
        comes_from(
            w.layers@[i].ln_1.weight@,
            tensors,
            layer_tensor(i, ".ln_1.weight"@),
            seq![768usize],
        ),
        comes_from(
            w.layers@[i].ln_1.bias@,
            tensors,
            layer_tensor(i, ".ln_1.bias"@),
            seq![768usize],
        ),
        comes_from(
            w.layers@[i].c_attn_weight@,
            tensors,
            layer_tensor(i, ".attn.c_attn.weight"@),
            seq![768usize, 2304usize],
        ),
        comes_from(
            w.layers@[i].c_attn_bias@,
            tensors,
            layer_tensor(i, ".attn.c_attn.bias"@),
            seq![2304usize],
        ),
        comes_from(
            w.layers@[i].c_proj_weight@,
            tensors,
            layer_tensor(i, ".attn.c_proj.weight"@),
            seq![768usize, 768usize],
        ),
        comes_from(
            w.layers@[i].c_proj_bias@,
            tensors,
            layer_tensor(i, ".attn.c_proj.bias"@),
            seq![768usize],
        ),
        comes_from(
            w.layers@[i].ln_2.weight@,
            tensors,
            layer_tensor(i, ".ln_2.weight"@),
            seq![768usize],
        ),
        comes_from(
            w.layers@[i].ln_2.bias@,
            tensors,
            layer_tensor(i, ".ln_2.bias"@),
            seq![768usize],
        ),
        comes_from(
            w.layers@[i].mlp_fc_weight@,
            tensors,
            layer_tensor(i, ".mlp.c_fc.weight"@),
            seq![768usize, 3072usize],
        ),
        comes_from(
            w.layers@[i].mlp_fc_bias@,
            tensors,
            layer_tensor(i, ".mlp.c_fc.bias"@),
            seq![3072usize],
        ),
        comes_from(
            w.layers@[i].mlp_proj_weight@,
            tensors,
            layer_tensor(i, ".mlp.c_proj.weight"@),
            seq![3072usize, 768usize],
        ),
        comes_from(
            w.layers@[i].mlp_proj_bias@,
            tensors,
            layer_tensor(i, ".mlp.c_proj.bias"@),
            seq![768usize],
        ),
{
    let g = 4 + 12 * i;
    assert((g + 0 - 4) / 12 == i && (g + 0 - 4) % 12 == 0);
    assert(taken(w.tensor(g + 0), tensors, g + 0));
    assert((g + 1 - 4) / 12 == i && (g + 1 - 4) % 12 == 1);
    assert(taken(w.tensor(g + 1), tensors, g + 1));
    assert((g + 2 - 4) / 12 == i && (g + 2 - 4) % 12 == 2);
    assert(taken(w.tensor(g + 2), tensors, g + 2));
    assert((g + 3 - 4) / 12 == i && (g + 3 - 4) % 12 == 3);
    assert(taken(w.tensor(g + 3), tensors, g + 3));
    assert((g + 4 - 4) / 12 == i && (g + 4 - 4) % 12 == 4);
    assert(taken(w.tensor(g + 4), tensors, g + 4));
    assert((g + 5 - 4) / 12 == i && (g + 5 - 4) % 12 == 5);
    assert(taken(w.tensor(g + 5), tensors, g + 5));
    assert((g + 6 - 4) / 12 == i && (g + 6 - 4) % 12 == 6);
    assert(taken(w.tensor(g + 6), tensors, g + 6));
    assert((g + 7 - 4) / 12 == i && (g + 7 - 4) % 12 == 7);
    assert(taken(w.tensor(g + 7), tensors, g + 7));
    assert((g + 8 - 4) / 12 == i && (g + 8 - 4) % 12 == 8);
    assert(taken(w.tensor(g + 8), tensors, g + 8));
    assert((g + 9 - 4) / 12 == i && (g + 9 - 4) % 12 == 9);
    assert(taken(w.tensor(g + 9), tensors, g + 9));
    assert((g + 10 - 4) / 12 == i && (g + 10 - 4) % 12 == 10);
    assert(taken(w.tensor(g + 10), tensors, g + 10));
    assert((g + 11 - 4) / 12 == i && (g + 11 - 4) % 12 == 11);
    assert(taken(w.tensor(g + 11), tensors, g + 11));
}

proof fn lemma_bytes_of_word(b0: u8, b1: u8, b2: u8, b3: u8, w: u32)
    requires
        w == b0 + b1 * 0x100 + b2 * 0x1_0000 + b3 * 0x100_0000,
    ensures
        w % 0x100 == b0,
        w / 0x100 % 0x100 == b1,
        w / 0x1_0000 % 0x100 == b2,
        w / 0x100_0000 == b3,
{
}

/// Every word of a tensor is made of the four bytes at its place, the least first.
pub proof fn words_have_their_bytes(data: Seq<u8>, i: int)
    requires
        0 <= i < data.len() / 4,
    ensures
        words_of(data).len() == data.len() / 4,
        words_of(data)[i] % 0x100 == data[4 * i],
        words_of(data)[i] / 0x100 % 0x100 == data[4 * i + 1],
        words_of(data)[i] / 0x1_0000 % 0x100 == data[4 * i + 2],
        words_of(data)[i] / 0x100_0000 == data[4 * i + 3],
{
    lemma_bytes_of_word(
        data[4 * i],
        data[4 * i + 1],
        data[4 * i + 2],
        data[4 * i + 3],
        words_of(data)[i],
    );
}

} // verus!
