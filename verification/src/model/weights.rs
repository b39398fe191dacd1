//! The weights of GPT-2 small.

use vstd::prelude::*;

use safetensors::SafeTensors;

use crate::bytes::{read_word, word_at};
use crate::model::archive::{
    all_well_formed, archive_tensors, entries_of, find_tensor, list_entries, offsets_fit,
    parse_archive, parse_error_text, parsed_tensors, shape_product, well_formed, Tensor,
    TensorModel,
};
use crate::model::error::ModelError;
use crate::model::listing::copy_shape;
use crate::text::{decimal_chars, decimal_text};

verus! {

/// The number of layers.
pub const NUM_LAYERS: usize = 12;

/// The width of a position's state.
pub const HIDDEN_DIM: usize = 768;

/// The number of attention heads.
pub const NUM_HEADS: usize = 12;

/// The width between the two products of the feed-forward part.
pub const FFN_DIM: usize = 3072;

/// The number of tokens.
pub const VOCAB_SIZE: usize = 50257;

/// The longest sequence.
pub const MAX_SEQ_LEN: usize = 1024;

/// The scale and the shift of a layer norm.
#[derive(Debug, Clone)]
pub struct LayerNormWeights {
    /// The scale.
    pub weight: Vec<u32>,
    /// The shift.
    pub bias: Vec<u32>,
}

/// The weights of one layer.
#[derive(Debug, Clone)]
pub struct TransformerLayerWeights {
    /// The layer norm before attention.
    pub ln_1: LayerNormWeights,
    /// The projection to queries, keys and values, 768 by 2304.
    pub c_attn_weight: Vec<u32>,
    /// Its bias.
    pub c_attn_bias: Vec<u32>,
    /// The projection of the attention output, 768 by 768.
    pub c_proj_weight: Vec<u32>,
    /// Its bias.
    pub c_proj_bias: Vec<u32>,
    /// The layer norm before the feed-forward part.
    pub ln_2: LayerNormWeights,
    /// The projection up, 768 by 3072.
    pub mlp_fc_weight: Vec<u32>,
    /// Its bias.
    pub mlp_fc_bias: Vec<u32>,
    /// The projection down, 3072 by 768.
    pub mlp_proj_weight: Vec<u32>,
    /// Its bias.
    pub mlp_proj_bias: Vec<u32>,
}

/// The weights of the model.
#[derive(Debug, Clone)]
pub struct Gpt2Weights {
    /// The token embeddings, 50257 by 768.
    pub wte: Vec<u32>,
    /// The position embeddings, 1024 by 768.
    pub wpe: Vec<u32>,
    /// The layer norm after the last layer.
    pub ln_f: LayerNormWeights,
    /// The layers.
    pub layers: Vec<TransformerLayerWeights>,
}

impl TransformerLayerWeights {
    /// The layer's tensors, numbered as they are loaded.
    pub open spec fn tensor(&self, k: int) -> Seq<u32> {
        if k == 0 {
            self.ln_1.weight@
        } else if k == 1 {
            self.ln_1.bias@
        } else if k == 2 {
            self.c_attn_weight@
        } else if k == 3 {
            self.c_attn_bias@
        } else if k == 4 {
            self.c_proj_weight@
        } else if k == 5 {
            self.c_proj_bias@
        } else if k == 6 {
            self.ln_2.weight@
        } else if k == 7 {
            self.ln_2.bias@
        } else if k == 8 {
            self.mlp_fc_weight@
        } else if k == 9 {
            self.mlp_fc_bias@
        } else if k == 10 {
            self.mlp_proj_weight@
        } else {
            self.mlp_proj_bias@
        }
    }

    /// The number of elements of the layer's first `n` tensors.
    pub open spec fn count(&self, n: nat) -> nat
        decreases n,
    {
        if n == 0 {
            0
        } else {
            self.count((n - 1) as nat) + self.tensor(n - 1).len()
        }
    }

    /// The number of elements.
    pub fn params(&self) -> (r: usize)
        requires
            self.count(12) <= usize::MAX,
        ensures
            r == self.count(12),
    {
        proof {
            reveal_with_fuel(TransformerLayerWeights::count, 13);
        }
        self.ln_1.weight.len() + self.ln_1.bias.len() + self.c_attn_weight.len()
            + self.c_attn_bias.len() + self.c_proj_weight.len() + self.c_proj_bias.len()
            + self.ln_2.weight.len() + self.ln_2.bias.len() + self.mlp_fc_weight.len()
            + self.mlp_fc_bias.len() + self.mlp_proj_weight.len() + self.mlp_proj_bias.len()
    }
}

/// The number of elements of layers.
pub open spec fn layers_count(layers: Seq<TransformerLayerWeights>) -> nat
    decreases layers.len(),
{
    if layers.len() == 0 {
        0
    } else {
        layers_count(layers.drop_last()) + layers.last().count(12)
    }
}

proof fn lemma_layers_count_grows(layers: Seq<TransformerLayerWeights>, n: int)
    requires
        0 <= n <= layers.len(),
    ensures
        layers_count(layers.take(n)) <= layers_count(layers),
    decreases layers.len() - n,
{
    if n < layers.len() {
        assert(layers.take(n + 1).drop_last() =~= layers.take(n));
        lemma_layers_count_grows(layers, n + 1);
    } else {
        assert(layers.take(n) =~= layers);
    }
}

/// The number of tensors of the model.
pub const NUM_TENSORS: usize = 148;

impl Gpt2Weights {
    /// The model's tensors, numbered as they are loaded.
    pub open spec fn tensor(&self, g: int) -> Seq<u32> {
        if g == 0 {
            self.wte@
        } else if g == 1 {
            self.wpe@
        } else if g == 2 {
            self.ln_f.weight@
        } else if g == 3 {
            self.ln_f.bias@
        } else {
            self.layers@[(g - 4) / 12].tensor((g - 4) % 12)
        }
    }

    /// The number of elements.
    pub open spec fn count(&self) -> nat {
        self.wte@.len() + self.wpe@.len() + self.ln_f.weight@.len() + self.ln_f.bias@.len()
            + layers_count(self.layers@)
    }

    /// The model has all its layers, and each tensor has the size that its shape gives.
    pub open spec fn complete(&self) -> bool {
        &&& self.layers@.len() == 12
        &&& forall|g: int|
            0 <= g < 148 ==> (#[trigger] self.tensor(g)).len() == shape_product(tensor_shape(g))
    }

    /// The number of parameters.
    pub fn total_params(&self) -> (total: usize)
        requires
            self.count() <= usize::MAX,
        ensures
            total == self.count(),
    {
        let mut total: usize = self.wte.len() + self.wpe.len() + self.ln_f.weight.len()
            + self.ln_f.bias.len();
        let ghost front = total as nat;
        assert(self.layers@.take(0) =~= Seq::<TransformerLayerWeights>::empty());
        for i in 0..self.layers.len()
            invariant
                front + layers_count(self.layers@) <= usize::MAX,
                total == front + layers_count(self.layers@.take(i as int)),
        {
            proof {
                assert(self.layers@.take(i + 1).drop_last() =~= self.layers@.take(i as int));
                lemma_layers_count_grows(self.layers@, i + 1);
            }
            total = total + self.layers[i].params();
        }
        assert(self.layers@.take(self.layers@.len() as int) =~= self.layers@);
        total
    }

    /// The number of bytes that the weights take.
    pub fn memory_bytes(&self) -> (bytes: usize)
        requires
            self.count() * 4 <= usize::MAX,
        ensures
            bytes == self.count() * 4,
    {
        self.total_params() * 4
    }
}

/// The end of the name of a layer's tensor.
pub open spec fn suffix(k: int) -> Seq<char> {
    if k == 0 {
        ".ln_1.weight"@
    } else if k == 1 {
        ".ln_1.bias"@
    } else if k == 2 {
        ".attn.c_attn.weight"@
    } else if k == 3 {
        ".attn.c_attn.bias"@
    } else if k == 4 {
        ".attn.c_proj.weight"@
    } else if k == 5 {
        ".attn.c_proj.bias"@
    } else if k == 6 {
        ".ln_2.weight"@
    } else if k == 7 {
        ".ln_2.bias"@
    } else if k == 8 {
        ".mlp.c_fc.weight"@
    } else if k == 9 {
        ".mlp.c_fc.bias"@
    } else if k == 10 {
        ".mlp.c_proj.weight"@
    } else {
        ".mlp.c_proj.bias"@
    }
}

/// The name of a tensor.
pub open spec fn tensor_name(g: int) -> Seq<char> {
    if g == 0 {
        "wte.weight"@
    } else if g == 1 {
        "wpe.weight"@
    } else if g == 2 {
        "ln_f.weight"@
    } else if g == 3 {
        "ln_f.bias"@
    } else {
        "h."@ + decimal_chars(((g - 4) / 12) as nat) + suffix((g - 4) % 12)
    }
}

/// The shape of a layer's tensor.
pub open spec fn layer_shape(k: int) -> Seq<usize> {
    if k == 2 {
        seq![768usize, 2304usize]
    } else if k == 3 {
        seq![2304usize]
    } else if k == 4 {
        seq![768usize, 768usize]
    } else if k == 8 {
        seq![768usize, 3072usize]
    } else if k == 9 {
        seq![3072usize]
    } else if k == 10 {
        seq![3072usize, 768usize]
    } else {
        seq![768usize]
    }
}

/// The shape of a tensor.
pub open spec fn tensor_shape(g: int) -> Seq<usize> {
    if g == 0 {
        seq![50257usize, 768usize]
    } else if g == 1 {
        seq![1024usize, 768usize]
    } else if g == 2 || g == 3 {
        seq![768usize]
    } else {
        layer_shape((g - 4) % 12)
    }
}

fn suffix_text(k: usize) -> (r: &'static str)
    requires
        k < 12,
    ensures
        r@ == suffix(k as int),
{
    match k {
        0 => ".ln_1.weight",
        1 => ".ln_1.bias",
        2 => ".attn.c_attn.weight",
        3 => ".attn.c_attn.bias",
        4 => ".attn.c_proj.weight",
        5 => ".attn.c_proj.bias",
        6 => ".ln_2.weight",
        7 => ".ln_2.bias",
        8 => ".mlp.c_fc.weight",
        9 => ".mlp.c_fc.bias",
        10 => ".mlp.c_proj.weight",
        _ => ".mlp.c_proj.bias",
    }
}

/// The name of a tensor.
pub fn name_of(g: usize) -> (r: String)
    requires
        g < NUM_TENSORS,
    ensures
        r@ == tensor_name(g as int),
{
    if g == 0 {
        "wte.weight".to_string()
    } else if g == 1 {
        "wpe.weight".to_string()
    } else if g == 2 {
        "ln_f.weight".to_string()
    } else if g == 3 {
        "ln_f.bias".to_string()
    } else {
        let mut r = "h.".to_string();
        let layer = decimal_text(((g - 4) / 12) as u64);
        r.append(layer.as_str());
        r.append(suffix_text((g - 4) % 12));
        r
    }
}

/// The shape of a tensor.
pub fn shape_of(g: usize) -> (r: Vec<usize>)
    requires
        g < NUM_TENSORS,
    ensures
        r@ == tensor_shape(g as int),
{
    let r: Vec<usize> = if g == 0 {
        vec![VOCAB_SIZE, HIDDEN_DIM]
    } else if g == 1 {
        vec![MAX_SEQ_LEN, HIDDEN_DIM]
    } else if g == 2 || g == 3 {
        vec![HIDDEN_DIM]
    } else {
        match (g - 4) % 12 {
            2 => vec![HIDDEN_DIM, HIDDEN_DIM * 3],
            3 => vec![HIDDEN_DIM * 3],
            4 => vec![HIDDEN_DIM, HIDDEN_DIM],
            8 => vec![HIDDEN_DIM, FFN_DIM],
            9 => vec![FFN_DIM],
            10 => vec![FFN_DIM, HIDDEN_DIM],
            _ => vec![HIDDEN_DIM],
        }
    };
    assert(r@ =~= tensor_shape(g as int));
    r
}

/// The 32-bit words of bytes.
pub open spec fn words_of(data: Seq<u8>) -> Seq<u32> {
    Seq::new(data.len() / 4, |i: int| word_at(data, 4 * i))
}

/// Takes bytes as 32-bit words.
pub fn copy_bytes_to_f32_vec(data: &[u8]) -> (r: Vec<u32>)
    requires
        data@.len() % 4 == 0,
    ensures
        r@ == words_of(data@),
{
    let size: usize = data.len();
    let count: usize = size / 4;
    let mut r: Vec<u32> = Vec::with_capacity(count);
    for i in 0..count
        invariant
            size == data@.len(),
            count == size / 4,
            r@ == words_of(data@).take(i as int),
    {
        r.push(read_word(data, 4 * i));
        assert(r@ =~= words_of(data@).take(i + 1));
    }
    assert(words_of(data@).take(count as int) =~= words_of(data@));
    r
}

/// A tensor has 32-bit floating-point elements.
pub open spec fn is_f32(t: TensorModel) -> bool {
    t.dtype == "F32"@
}

/// The tensor is there, with elements and shape as expected.
pub open spec fn extractable(found: Option<TensorModel>, shape: Seq<usize>) -> bool {
    match found {
        Some(t) => is_f32(t) && t.shape == shape,
        None => false,
    }
}

/// The error tells what is wrong with a tensor: that it is missing, that its elements are
/// of another type, or, its elements being right, that it has another shape.
pub open spec fn extract_failure(
    e: ModelError,
    found: Option<TensorModel>,
    name: Seq<char>,
    shape: Option<Seq<usize>>,
) -> bool {
    match e {
        ModelError::MissingTensor(n) => found is None && n@ == name,
        ModelError::UnexpectedDtype { name: n, expected, got } => {
            &&& found matches Some(t)
            &&& !is_f32(t)
            &&& n@ == name
            &&& expected@ == "F32"@
            &&& got@ == t.dtype
        },
        ModelError::UnexpectedShape { name: n, expected, got } => {
            &&& found matches Some(t)
            &&& is_f32(t)
            &&& n@ == name
            &&& shape == Some(expected@)
            &&& got@ == t.shape
            &&& t.shape != expected@
        },
        _ => false,
    }
}

/// What a lookup gave, as a model.
pub open spec fn found_model(found: Option<Tensor>) -> Option<TensorModel> {
    match found {
        Some(t) => Some(t@),
        None => None,
    }
}

/// The tensor of a name.
pub open spec fn lookup(tensors: Map<Seq<char>, TensorModel>, name: Seq<char>) -> Option<
    TensorModel,
> {
    if tensors.contains_key(name) {
        Some(tensors[name])
    } else {
        None
    }
}

fn same_shape(a: &[usize], b: &[usize]) -> (r: bool)
    ensures
        r == (a@ == b@),
{
    if a.len() != b.len() {
        return false;
    }
    for i in 0..a.len()
        invariant
            a@.len() == b@.len(),
            forall|j: int| 0 <= j < i ==> a@[j] == b@[j],
    {
        if a[i] != b[i] {
            return false;
        }
    }
    assert(a@ =~= b@);
    true
}

/// The elements and the shape of a tensor that was looked up.
pub fn decode_any_shape(found: Option<Tensor>, name: &str) -> (r: Result<TensorData, ModelError>)
    requires
        found matches Some(t) ==> well_formed(t@),
    ensures
        match r {
            Ok((data, shape)) => {
                &&& found matches Some(t)
                &&& is_f32(t@)
                &&& shape@ == t@.shape
                &&& data@ == words_of(t@.data)
            },
            Err(e) => extract_failure(e, found_model(found), name@, None),
        },
{
    match found {
        None => Err(ModelError::MissingTensor(name.to_string())),
        Some(t) => {
            if t.dtype != "F32".to_string() {
                return Err(
                    ModelError::UnexpectedDtype {
                        name: name.to_string(),
                        expected: "F32",
                        got: t.dtype,
                    },
                );
            }
            Ok((copy_bytes_to_f32_vec(t.data.as_slice()), t.shape))
        },
    }
}

/// The elements of a tensor that was looked up, if it has the expected shape.
pub fn decode_tensor(found: Option<Tensor>, name: &str, expected_shape: &[usize]) -> (r: Result<
    Vec<u32>,
    ModelError,
>)
    requires
        found matches Some(t) ==> well_formed(t@),
    ensures
        match r {
            Ok(data) => {
                &&& extractable(found_model(found), expected_shape@)
                &&& data@ == words_of((found->0)@.data)
            },
            Err(e) => extract_failure(e, found_model(found), name@, Some(expected_shape@)),
        },
{
    match found {
        None => Err(ModelError::MissingTensor(name.to_string())),
        Some(t) => {
            if t.dtype != "F32".to_string() {
                return Err(
                    ModelError::UnexpectedDtype {
                        name: name.to_string(),
                        expected: "F32",
                        got: t.dtype,
                    },
                );
            }
            if !same_shape(t.shape.as_slice(), expected_shape) {
                return Err(
                    ModelError::UnexpectedShape {
                        name: name.to_string(),
                        expected: copy_shape(expected_shape),
                        got: t.shape,
                    },
                );
            }
            Ok(copy_bytes_to_f32_vec(t.data.as_slice()))
        },
    }
}

/// Takes a tensor of the expected shape out of an archive.
pub fn extract_f32_tensor(
    archive: &SafeTensors<'_>,
    name: &str,
    expected_shape: &[usize],
) -> (r: Result<Vec<u32>, ModelError>)
    requires
        all_well_formed(archive_tensors(*archive)),
    ensures
        ({
            let found = lookup(archive_tensors(*archive), name@);
            match r {
                Ok(data) => extractable(found, expected_shape@) && data@ == words_of(
                    (found->0).data,
                ),
                Err(e) => extract_failure(e, found, name@, Some(expected_shape@)),
            }
        }),
{
    let found = find_tensor(archive, name);
    decode_tensor(found, name, expected_shape)
}

/// Takes a tensor of any shape out of an archive.
pub fn extract_f32_tensor_any_shape(archive: &SafeTensors<'_>, name: &str) -> (r: Result<
    TensorData,
    ModelError,
>)
    requires
        all_well_formed(archive_tensors(*archive)),
    ensures
        ({
            let found = lookup(archive_tensors(*archive), name@);
            match r {
                Ok((data, shape)) => {
                    &&& found matches Some(t)
                    &&& is_f32(t)
                    &&& shape@ == t.shape
                    &&& data@ == words_of(t.data)
                },
                Err(e) => extract_failure(e, found, name@, None),
            }
        }),
{
    let found = find_tensor(archive, name);
    decode_any_shape(found, name)
}

/// Puts the tensors in their places.
pub fn assemble(tensors: Vec<Vec<u32>>) -> (w: Gpt2Weights)
    requires
        tensors@.len() == 148,
    ensures
        w.layers@.len() == 12,
        forall|g: int| 0 <= g < 148 ==> #[trigger] w.tensor(g) == tensors@[g]@,
{
    let ghost all = tensors@;
    let mut rest = tensors;
    let wte = rest.remove(0);
    let wpe = rest.remove(0);
    let weight = rest.remove(0);
    let bias = rest.remove(0);
    let ln_f = LayerNormWeights { weight, bias };
    let mut layers: Vec<TransformerLayerWeights> = Vec::new();
    assert(rest@ =~= all.skip(4));
    for i in 0..NUM_LAYERS
        invariant
            all.len() == 148,
            layers@.len() == i,
            rest@ == all.skip(4 + 12 * i),
            forall|j: int, k: int|
                0 <= j < i && 0 <= k < 12 ==> #[trigger] layers@[j].tensor(k) == all[4 + 12 * j
                    + k]@,
    {
        let ghost at = 4 + 12 * i;
        let layer = take_layer(&mut rest);
        assert(rest@ =~= all.skip(4 + 12 * (i + 1)));
        let ghost before = layers@;
        layers.push(layer);
        assert forall|j: int, k: int| 0 <= j < i + 1 && 0 <= k < 12 implies #[trigger] layers@[j].tensor(
            k,
        ) == all[4 + 12 * j + k]@ by {
            if j < i {
                assert(layers@[j] == before[j]);
                assert(before[j].tensor(k) == all[4 + 12 * j + k]@);
            } else {
                assert(all.skip(at)[k] == all[at + k]);
            }
        }
    }
    let w = Gpt2Weights { wte, wpe, ln_f, layers };
    proof {
        assert forall|g: int| 0 <= g < 148 implies #[trigger] w.tensor(g) == all[g]@ by {
            if g >= 4 {
                let j = (g - 4) / 12;
                let k = (g - 4) % 12;
                assert(w.layers@[j].tensor(k) == all[4 + 12 * j + k]@);
            }
        }
    }
    w
}

/// Takes the tensors of a layer off the front of a list.
fn take_layer(rest: &mut Vec<Vec<u32>>) -> (layer: TransformerLayerWeights)
    requires
        old(rest)@.len() >= 12,
    ensures
        final(rest)@ == old(rest)@.skip(12),
        forall|k: int| 0 <= k < 12 ==> #[trigger] layer.tensor(k) == old(rest)@[k]@,
{
    let weight = rest.remove(0);
    let bias = rest.remove(0);
    let ln_1 = LayerNormWeights { weight, bias };
    let c_attn_weight = rest.remove(0);
    let c_attn_bias = rest.remove(0);
    let c_proj_weight = rest.remove(0);
    let c_proj_bias = rest.remove(0);
    let weight = rest.remove(0);
    let bias = rest.remove(0);
    let ln_2 = LayerNormWeights { weight, bias };
    let mlp_fc_weight = rest.remove(0);
    let mlp_fc_bias = rest.remove(0);
    let mlp_proj_weight = rest.remove(0);
    let mlp_proj_bias = rest.remove(0);
    assert(rest@ =~= old(rest)@.skip(12));
    TransformerLayerWeights {
        ln_1,
        c_attn_weight,
        c_attn_bias,
        c_proj_weight,
        c_proj_bias,
        ln_2,
        mlp_fc_weight,
        mlp_fc_bias,
        mlp_proj_weight,
        mlp_proj_bias,
    }
}

/// A tensor of the model can be taken out.
pub open spec fn tensor_ok(tensors: Map<Seq<char>, TensorModel>, g: int) -> bool {
    extractable(lookup(tensors, tensor_name(g)), tensor_shape(g))
}

/// The elements are those of a tensor of the model.
pub open spec fn taken(data: Seq<u32>, tensors: Map<Seq<char>, TensorModel>, g: int) -> bool {
    tensor_ok(tensors, g) && data == words_of(tensors[tensor_name(g)].data)
}

/// The weights are those of the archive.
pub open spec fn loaded(w: Gpt2Weights, tensors: Map<Seq<char>, TensorModel>) -> bool {
    &&& w.complete()
    &&& forall|g: int| 0 <= g < 148 ==> taken(#[trigger] w.tensor(g), tensors, g)
}

/// The error is that of the first tensor that cannot be taken out.
pub open spec fn load_failure(e: ModelError, tensors: Map<Seq<char>, TensorModel>) -> bool {
    exists|g: int|
        0 <= g < 148 && #[trigger] extract_failure(
            e,
            lookup(tensors, tensor_name(g)),
            tensor_name(g),
            Some(tensor_shape(g)),
        ) && forall|h: int| 0 <= h < g ==> #[trigger] tensor_ok(tensors, h)
}

/// Takes the weights out of an archive.
pub fn take_weights(archive: &SafeTensors<'_>) -> (r: Result<Gpt2Weights, ModelError>)
    requires
        all_well_formed(archive_tensors(*archive)),
    ensures
        match r {
            Ok(w) => loaded(w, archive_tensors(*archive)),
            Err(e) => load_failure(e, archive_tensors(*archive)),
        },
{
    let ghost tensors = archive_tensors(*archive);
    let mut list: Vec<Vec<u32>> = Vec::new();
    for g in 0..NUM_TENSORS
        invariant
            tensors == archive_tensors(*archive),
            all_well_formed(tensors),
            list@.len() == g,
            forall|h: int| 0 <= h < g ==> taken(#[trigger] list@[h]@, tensors, h),
    {
        let name = name_of(g);
        let shape = shape_of(g);
        match extract_f32_tensor(archive, name.as_str(), shape.as_slice()) {
            Ok(data) => {
                assert(taken(data@, tensors, g as int));
                list.push(data);
            },
            Err(e) => {
                assert(extract_failure(
                    e,
                    lookup(tensors, tensor_name(g as int)),
                    tensor_name(g as int),
                    Some(tensor_shape(g as int)),
                ));
                assert forall|h: int| 0 <= h < g implies #[trigger] tensor_ok(tensors, h) by {
                    assert(taken(list@[h]@, tensors, h));
                }
                return Err(e);
            },
        }
    }
    let ghost all = list@;
    let w = assemble(list);
    proof {
        assert forall|g: int| 0 <= g < 148 implies taken(#[trigger] w.tensor(g), tensors, g)
            && w.tensor(g).len() == shape_product(tensor_shape(g)) by {
            assert(taken(all[g]@, tensors, g));
            assert(well_formed(tensors[tensor_name(g)]));
        }
    }
    Ok(w)
}

/// Loads the weights from the bytes of a safetensors file.
pub fn load_gpt2_weights(data: &[u8]) -> (r: Result<Gpt2Weights, ModelError>)
    requires
        offsets_fit(data@),
    ensures
        match (r, parsed_tensors(data@)) {
            (Ok(w), Some(tensors)) => loaded(w, tensors),
            (Err(ModelError::SafeTensors(_)), None) => true,
            (Err(e), Some(tensors)) => load_failure(e, tensors),
            _ => false,
        },
{
    match parse_archive(data) {
        Ok(archive) => take_weights(&archive),
        Err(e) => Err(ModelError::SafeTensors(parse_error_text(&e))),
    }
}

/// The elements and the shape of a tensor.
pub type TensorData = (Vec<u32>, Vec<usize>);

/// A tensor with its name.
pub struct NamedTensor {
    /// The tensor.
    pub name: String,
    /// Its elements and its shape.
    pub data: TensorData,
}

/// The list holds the tensors, each once.
pub open spec fn all_loaded(
    list: Seq<NamedTensor>,
    tensors: Map<Seq<char>, TensorModel>,
) -> bool {
    &&& forall|i: int|
        0 <= i < list.len() ==> {
            let t = tensors[list[i].name@];
            &&& tensors.contains_key(#[trigger] list[i].name@)
            &&& is_f32(t)
            &&& list[i].data.0@ == words_of(t.data)
            &&& list[i].data.1@ == t.shape
        }
    &&& forall|i: int, j: int|
        0 <= i < j < list.len() ==> #[trigger] list[i].name@ != #[trigger] list[j].name@
    &&& forall|name: Seq<char>| #[trigger]
        tensors.contains_key(name) ==> exists|i: int|
            0 <= i < list.len() && #[trigger] list[i].name@ == name
}

/// The error tells of a tensor whose elements are of another type.
pub open spec fn some_wrong_dtype(e: ModelError, tensors: Map<Seq<char>, TensorModel>) -> bool {
    &&& e matches ModelError::UnexpectedDtype { name, expected, got }
    &&& tensors.contains_key(name@)
    &&& !is_f32(tensors[name@])
    &&& expected@ == "F32"@
    &&& got@ == tensors[name@].dtype
}

/// Loads all tensors from the bytes of a safetensors file, each with its name. It fails
/// exactly if a tensor has elements of another type than 32-bit floating point; where there
/// are several such tensors, the error may tell of any of them.
pub fn load_all_tensors(data: &[u8]) -> (r: Result<Vec<NamedTensor>, ModelError>)
    requires
        offsets_fit(data@),
    ensures
        match (r, parsed_tensors(data@)) {
            (Ok(list), Some(tensors)) => all_loaded(list@, tensors),
            (Err(ModelError::SafeTensors(_)), None) => true,
            (Err(e), Some(tensors)) => some_wrong_dtype(e, tensors),
            _ => false,
        },
{
    match parse_archive(data) {
        Ok(archive) => {
            let ghost tensors = parsed_tensors(data@)->0;
            let entries = list_entries(&archive);
            let mut list: Vec<NamedTensor> = Vec::new();
            for n in 0..entries.len()
                invariant
                    archive_tensors(archive) == tensors,
                    all_well_formed(tensors),
                    entries_of(entries@, tensors),
                    parsed_tensors(data@) == Some(tensors),
                    list@.len() == n,
                    forall|i: int|
                        0 <= i < n ==> {
                            let t = tensors[list@[i].name@];
                            &&& (#[trigger] list@[i]).name@ == entries@[i].name@
                            &&& is_f32(t)
                            &&& list@[i].data.0@ == words_of(t.data)
                            &&& list@[i].data.1@ == t.shape
                        },
            {
                let ghost before = list@;
                assert(tensors.contains_key(entries@[n as int].name@));
                match extract_f32_tensor_any_shape(&archive, entries[n].name.as_str()) {
                    Ok(data) => {
                        list.push(NamedTensor { name: entries[n].name.clone(), data });
                        assert(forall|i: int| 0 <= i < n ==> #[trigger] list@[i] == before[i]);
                    },
                    Err(e) => {
                        return Err(e);
                    },
                }
            }
            proof {
                assert forall|name: Seq<char>| #[trigger]
                    tensors.contains_key(name) implies exists|i: int|
                    0 <= i < list@.len() && #[trigger] list@[i].name@ == name by {
                    let k = choose|k: int|
                        0 <= k < entries@.len() && #[trigger] entries@[k].name@ == name;
                    assert(list@[k].name@ == name);
                }
            }
            Ok(list)
        },
        Err(e) => Err(ModelError::SafeTensors(parse_error_text(&e))),
    }
}

/// The number of elements of each tensor of a layer.
proof fn lemma_layer_shapes()
    ensures
        shape_product(layer_shape(0)) == 768,
        shape_product(layer_shape(2)) == 1769472,
        shape_product(layer_shape(3)) == 2304,
        shape_product(layer_shape(4)) == 589824,
        shape_product(layer_shape(8)) == 2359296,
        shape_product(layer_shape(9)) == 3072,
        shape_product(layer_shape(10)) == 2359296,
        shape_product(tensor_shape(0)) == 38597376,
        shape_product(tensor_shape(1)) == 786432,
{
    lemma_product(768);
    lemma_product(2304);
    lemma_product(3072);
    lemma_product_of_two(768, 2304);
    lemma_product_of_two(768, 768);
    lemma_product_of_two(768, 3072);
    lemma_product_of_two(3072, 768);
    lemma_product_of_two(50257, 768);
    lemma_product_of_two(1024, 768);
}

proof fn lemma_product(a: usize)
    ensures
        shape_product(seq![a]) == a,
{
    assert(seq![a].drop_last() =~= Seq::<usize>::empty());
    assert(shape_product(Seq::<usize>::empty()) == 1);
    assert(seq![a].last() == a);
    assert(shape_product(seq![a]) == 1nat * a as nat);
}

proof fn lemma_product_of_two(a: usize, b: usize)
    ensures
        shape_product(seq![a, b]) == a as nat * b as nat,
{
    assert(seq![a, b].drop_last() =~= seq![a]);
    lemma_product(a);
}

/// A layer of a complete model has 7,087,872 parameters.
proof fn lemma_layer_count(w: Gpt2Weights, i: int)
    requires
        w.complete(),
        0 <= i < 12,
    ensures
        w.layers@[i].count(12) == 7087872,
{
    lemma_layer_shapes();
    assert forall|k: int| 0 <= k < 12 implies #[trigger] w.layers@[i].tensor(k).len()
        == shape_product(layer_shape(k)) by {
        let g = 4 + 12 * i + k;
        assert((g - 4) / 12 == i && (g - 4) % 12 == k);
        assert(w.tensor(g).len() == shape_product(tensor_shape(g)));
    }
    assert(layer_shape(1) == layer_shape(0));
    assert(layer_shape(5) == layer_shape(0));
    assert(layer_shape(6) == layer_shape(0));
    assert(layer_shape(7) == layer_shape(0));
    assert(layer_shape(11) == layer_shape(0));
    let layer = w.layers@[i];
    assert(layer.tensor(0).len() == 768 && layer.tensor(1).len() == 768);
    assert(layer.tensor(2).len() == 1769472 && layer.tensor(3).len() == 2304);
    assert(layer.tensor(4).len() == 589824 && layer.tensor(5).len() == 768);
    assert(layer.tensor(6).len() == 768 && layer.tensor(7).len() == 768);
    assert(layer.tensor(8).len() == 2359296 && layer.tensor(9).len() == 3072);
    assert(layer.tensor(10).len() == 2359296 && layer.tensor(11).len() == 768);
    reveal_with_fuel(TransformerLayerWeights::count, 13);
}

proof fn lemma_layers_total(w: Gpt2Weights, n: nat)
    requires
        w.complete(),
        n <= 12,
    ensures
        layers_count(w.layers@.take(n as int)) == n * 7087872,
    decreases n,
{
    if n > 0 {
        lemma_layers_total(w, (n - 1) as nat);
        lemma_layer_count(w, n - 1);
        assert(w.layers@.take(n as int).drop_last() =~= w.layers@.take(n - 1));
    }
}

/// A complete model has 124,439,808 parameters.
pub proof fn complete_model_has_124m_parameters(w: Gpt2Weights)
    requires
        w.complete(),
    ensures
        w.count() == 124439808,
{
    lemma_layer_shapes();
    assert(w.tensor(0).len() == shape_product(tensor_shape(0)));
    assert(w.tensor(1).len() == shape_product(tensor_shape(1)));
    assert(w.tensor(2).len() == shape_product(tensor_shape(2)));
    assert(w.tensor(3).len() == shape_product(tensor_shape(3)));
    assert(tensor_shape(2) == layer_shape(0) && tensor_shape(3) == layer_shape(0));
    lemma_layers_total(w, 12);
    assert(w.layers@.take(12) =~= w.layers@);
}

/// Every tensor that an archive must hold is loaded, and nothing else decides: loading
/// fails for an archive exactly if one of the tensors cannot be taken out.
pub proof fn failures_name_a_bad_tensor(e: ModelError, tensors: Map<Seq<char>, TensorModel>)
    requires
        load_failure(e, tensors),
    ensures
        exists|g: int| 0 <= g < 148 && !#[trigger] tensor_ok(tensors, g),
{
    let g = choose|g: int|
        0 <= g < 148 && #[trigger] extract_failure(
            e,
            lookup(tensors, tensor_name(g)),
            tensor_name(g),
            Some(tensor_shape(g)),
        );
    assert(!tensor_ok(tensors, g));
}

} // verus!
