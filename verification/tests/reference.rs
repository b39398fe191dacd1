use gpu_host::reference::{
    add_bias, add_residual, attention, audit_positions, embed, forward, gelu, greedy_token,
    layer_norm, logits, matmul, run_layer, summarize, top_indices, LayerWeights, Shape,
};
use gpu_host::scalar::{Constant, Scalar};

/// Double-precision numbers.
#[derive(Clone, Copy, Debug, PartialEq)]
struct F64(f64);

impl Scalar for F64 {
    fn constant(c: Constant) -> F64 {
        F64(match c {
            Constant::Zero => 0.0,
            Constant::One => 1.0,
            Constant::Two => 2.0,
            Constant::Half => 0.5,
            Constant::MinusOne => -1.0,
            Constant::GeluScale => 0.797_884_560_802_865_4,
            Constant::GeluCoefficient => 0.044_715,
            Constant::Masked => -1.0e38,
            Constant::NegInfinity => f64::NEG_INFINITY,
        })
    }
    fn from_count(n: usize) -> F64 {
        F64(n as f64)
    }
    fn from_bits(bits: u32) -> F64 {
        F64(f32::from_bits(bits) as f64)
    }
    fn to_bits(&self) -> u32 {
        (self.0 as f32).to_bits()
    }
    fn dup(&self) -> F64 {
        *self
    }
    fn plus(&self, other: &F64) -> F64 {
        F64(self.0 + other.0)
    }
    fn minus(&self, other: &F64) -> F64 {
        F64(self.0 - other.0)
    }
    fn times(&self, other: &F64) -> F64 {
        F64(self.0 * other.0)
    }
    fn over(&self, other: &F64) -> F64 {
        F64(self.0 / other.0)
    }
    fn fused(&self, factor: &F64, addend: &F64) -> F64 {
        F64(self.0.mul_add(factor.0, addend.0))
    }
    fn sqrt(&self) -> F64 {
        F64(self.0.sqrt())
    }
    fn exp(&self) -> F64 {
        F64(self.0.exp())
    }
    fn tanh(&self) -> F64 {
        F64(self.0.tanh())
    }
    fn larger(&self, other: &F64) -> F64 {
        F64(self.0.max(other.0))
    }
    fn exceeds(&self, other: &F64) -> bool {
        self.0 > other.0
    }
}

fn floats(x: &[f64]) -> Vec<F64> {
    x.iter().map(|&v| F64(v)).collect()
}

fn near(a: f64, b: f64) -> bool {
    (a - b).abs() < 1e-9
}

fn plain(x: &[F64]) -> Vec<f64> {
    x.iter().map(|v| v.0).collect()
}

fn shape() -> Shape {
    Shape { d_model: 4, n_heads: 2, d_head: 2, d_ffn: 8 }
}

fn wave(n: usize, f: f64) -> Vec<F64> {
    (0..n).map(|i| F64((i as f64 * f).sin())).collect()
}

fn layer(f: f64) -> LayerWeights<F64> {
    LayerWeights {
        ln_1_weight: wave(4, f + 0.1),
        ln_1_bias: wave(4, f + 0.2),
        c_attn_weight: wave(48, f + 0.3),
        c_attn_bias: wave(12, f + 0.4),
        c_proj_weight: wave(16, f + 0.5),
        c_proj_bias: wave(4, f + 0.6),
        ln_2_weight: wave(4, f + 0.7),
        ln_2_bias: wave(4, f + 0.8),
        mlp_fc_weight: wave(32, f + 0.9),
        mlp_fc_bias: wave(8, f + 1.0),
        mlp_proj_weight: wave(32, f + 1.1),
        mlp_proj_bias: wave(4, f + 1.2),
    }
}

#[test]
fn the_model_shape() {
    let s = Shape::gpt2();
    assert_eq!((s.d_model, s.n_heads, s.d_head, s.d_ffn), (768, 12, 64, 3072));
}

#[test]
fn normalized_rows_have_no_mean() {
    let x = floats(&[1.0, 2.0, 3.0, 6.0]);
    let y = layer_norm(&x, &floats(&[1.0; 4]), &floats(&[0.0; 4]), 4, &F64(0.0));
    assert!(near(plain(&y).iter().sum(), 0.0));
    assert!(near(y[3].0, 3.0 / 3.5f64.sqrt()));
}

#[test]
fn products_biases_and_residuals() {
    let a = floats(&[1.0, 2.0, 3.0, 4.0]);
    let b = floats(&[5.0, 6.0, 7.0, 8.0]);
    let mut c = matmul(&a, &b, 2, 2, 2);
    assert_eq!(plain(&c), vec![19.0, 22.0, 43.0, 50.0]);
    add_bias(&mut c, &floats(&[1.0, -1.0]), 2);
    assert_eq!(plain(&c), vec![20.0, 21.0, 44.0, 49.0]);
    add_residual(&mut c, &a);
    assert_eq!(plain(&c), vec![21.0, 23.0, 47.0, 53.0]);
}

#[test]
fn the_activation_in_double_precision() {
    assert_eq!(gelu(&F64(0.0)).0, 0.0);
    assert!((gelu(&F64(1.0)).0 - 0.841_191_990_607_477).abs() < 1e-9);
}

#[test]
fn the_first_position_attends_to_itself() {
    let qkv = wave(2 * 12, 0.37);
    let out = attention(&qkv, 2, &shape());
    assert_eq!(out.len(), 8);
    for x in 0..4 {
        assert!(near(out[x].0, qkv[8 + x].0));
    }
}

#[test]
fn padding_does_not_change_the_prediction() {
    let tokens = vec![2u32, 0, 1];
    let (wte, wpe) = (wave(5 * 4, 0.77), wave(8 * 4, 0.91));
    let layers = vec![layer(0.0), layer(2.0)];
    let (g, b) = (wave(4, 1.3), wave(4, 1.7));
    let exact = forward(&tokens, &wte, &wpe, &layers, &g, &b, &shape(), 3, &F64(1e-5));
    let padded = forward(&tokens, &wte, &wpe, &layers, &g, &b, &shape(), 8, &F64(1e-5));
    for i in 0..12 {
        assert!(near(exact[i].0, padded[i].0));
    }
    let mut rest = embed(&tokens, &wte, &wpe, 4, 8);
    assert_eq!(plain(&rest[12..32]), vec![0.0; 20]);
    run_layer(&mut rest, &layers[0], &shape(), 8, 3, &F64(1e-5));
    assert_eq!(plain(&rest[12..32]), vec![0.0; 20]);
}

#[test]
fn predictions() {
    let wte = floats(&[1.0, 0.0, 0.0, 1.0, 1.0, 1.0]);
    let hidden = floats(&[9.0, 9.0, 2.0, 3.0]);
    let scores = logits(&hidden, 1, &wte, 2, 3);
    assert_eq!(plain(&scores), vec![2.0, 3.0, 5.0]);
    assert_eq!(top_indices(&scores, 2), vec![2, 1]);
    let (score, token) = greedy_token(&floats(&[1.0, 7.0, 7.0, 2.0]));
    assert_eq!((score.0, token), (7.0, 1));
    assert_eq!(audit_positions(1), vec![0]);
    assert_eq!(audit_positions(5), vec![3, 4]);
}

#[test]
fn vectors_in_short() {
    let s = summarize(&floats(&[3.0, -4.0, 0.0, 0.0]));
    assert_eq!((s.norm.0, s.mean.0, s.greatest.0, s.least.0), (5.0, -0.25, 3.0, -4.0));
}
