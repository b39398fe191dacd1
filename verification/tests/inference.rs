use gpu_host::inference::generate::{generate, max_new_tokens, Generation, Next, Prediction};
use gpu_host::inference::plan::{config, forward_plan, Op, Weight};
use gpu_host::inference::prepare::{pad_tokens, padded_len, to_col_major};
use gpu_host::inference::verdict::{
    bits_infinite, bits_nan, judge, probabilities, report_layer, stats, Verdict,
};
use gpu_host::scalar::{Constant, Scalar};

/// Single-precision numbers.
#[derive(Clone, Copy, Debug, PartialEq)]
struct F32(f32);

impl Scalar for F32 {
    fn constant(c: Constant) -> F32 {
        F32(match c {
            Constant::Zero => 0.0,
            Constant::One => 1.0,
            Constant::Two => 2.0,
            Constant::Half => 0.5,
            Constant::MinusOne => -1.0,
            Constant::GeluScale => 0.797_884_6,
            Constant::GeluCoefficient => 0.044_715,
            Constant::Masked => -1.0e38,
            Constant::NegInfinity => f32::NEG_INFINITY,
        })
    }
    fn from_count(n: usize) -> F32 {
        F32(n as f32)
    }
    fn from_bits(bits: u32) -> F32 {
        F32(f32::from_bits(bits))
    }
    fn to_bits(&self) -> u32 {
        self.0.to_bits()
    }
    fn dup(&self) -> F32 {
        *self
    }
    fn plus(&self, other: &F32) -> F32 {
        F32(self.0 + other.0)
    }
    fn minus(&self, other: &F32) -> F32 {
        F32(self.0 - other.0)
    }
    fn times(&self, other: &F32) -> F32 {
        F32(self.0 * other.0)
    }
    fn over(&self, other: &F32) -> F32 {
        F32(self.0 / other.0)
    }
    fn fused(&self, factor: &F32, addend: &F32) -> F32 {
        F32(self.0.mul_add(factor.0, addend.0))
    }
    fn sqrt(&self) -> F32 {
        F32(self.0.sqrt())
    }
    fn exp(&self) -> F32 {
        F32(self.0.exp())
    }
    fn tanh(&self) -> F32 {
        F32(self.0.tanh())
    }
    fn larger(&self, other: &F32) -> F32 {
        F32(self.0.max(other.0))
    }
    fn exceeds(&self, other: &F32) -> bool {
        self.0 > other.0
    }
}

fn floats(x: &[f32]) -> Vec<F32> {
    x.iter().map(|&v| F32(v)).collect()
}

fn bits(x: &[f32]) -> Vec<u32> {
    x.iter().map(|v| v.to_bits()).collect()
}

#[test]
fn sequences_are_padded() {
    assert_eq!(padded_len(1), 32);
    assert_eq!(padded_len(32), 32);
    assert_eq!(padded_len(33), 64);
    assert_eq!(pad_tokens(&vec![5, 6], 4), vec![5, 6, 0, 0]);
    assert_eq!(pad_tokens(&vec![5, 6], 1), vec![5]);
}

#[test]
fn weights_are_turned() {
    assert_eq!(to_col_major(&vec![1, 2, 3, 4, 5, 6], 2, 3), vec![1, 4, 2, 5, 3, 6]);
}

#[test]
fn the_plan_of_a_pass() {
    let plan = forward_plan(5, 32);
    assert_eq!(plan[0].op, Op::Embed);
    assert_eq!((plan[0].config.grid_x, plan[0].config.block_x), (32 * 768 / 256, 256));
    assert_eq!(plan[1].op, Op::ZeroPad { start: 5 * 768 });
    assert_eq!(plan.last().unwrap().op, Op::LayerNorm { weight: Weight::LnFinal });
    let gemms = plan.iter().filter(|l| matches!(l.op, Op::Gemm { .. })).count();
    assert_eq!(gemms, 48);
    let full = forward_plan(32, 32);
    assert!(full.iter().all(|l| !matches!(l.op, Op::ZeroPad { .. })));
    let attention = config(&Op::FlashAttention, 64);
    assert_eq!((attention.grid_x, attention.grid_y, attention.block_x), (12, 2, 32));
}

#[test]
fn results_are_judged() {
    assert!(bits_nan(f32::NAN.to_bits()) && !bits_nan(f32::INFINITY.to_bits()));
    assert!(bits_infinite(f32::NEG_INFINITY.to_bits()) && !bits_infinite(1.0f32.to_bits()));
    let x = bits(&[1.0, -3.0, f32::NAN, f32::INFINITY]);
    let s = stats(&x, 0, 4);
    assert_eq!((s.nan, s.infinite, s.max_abs), (1, 1, 3.0f32.to_bits()));
    assert_eq!(
        judge(&bits(&[f32::NAN, 2.0, 1.0, -5.0]), 2, 2),
        Verdict::Sound { max_abs: 5.0f32.to_bits() }
    );
    assert_eq!(
        judge(&bits(&[1.0, 2.0, f32::NAN, 1.0]), 2, 2),
        Verdict::NotFinite { nan: 1, infinite: 0 }
    );
    assert_eq!(
        judge(&bits(&[1000.5, 2.0]), 1, 2),
        Verdict::TooLarge { max_abs: 1000.5f32.to_bits() }
    );
    assert_eq!(judge(&bits(&[1000.0, 2.0]), 1, 2), Verdict::Sound { max_abs: 1000.0f32.to_bits() });
    let report = report_layer(&bits(&[1.0, f32::NAN, 70000.0, 1.0]), 2, 2);
    assert_eq!((report.nan_rows, report.overflow_rows), (vec![0], vec![1]));
    assert_eq!(report.max_abs, 70000.0f32.to_bits());
}

#[test]
fn scores_become_probabilities() {
    let p = probabilities(&floats(&[0.0, 0.0]));
    assert_eq!((p[0].0, p[1].0), (0.5, 0.5));
    let p = probabilities(&floats(&[1.0, 2.0, 3.0]));
    assert!((p.iter().map(|x| x.0).sum::<f32>() - 1.0).abs() < 1e-6);
    assert!((p[2].0 - 0.665_241).abs() < 1e-5);
}

#[test]
fn tokens_are_generated() {
    assert_eq!(max_new_tokens(5), 50);
    assert_eq!(max_new_tokens(100), 28);
    let p = |best_token| Prediction { nan_count: 0, best_token };
    let (tokens, next) = generate(vec![1, 2], &vec![p(7), p(8), p(50256), p(9)]);
    assert_eq!((tokens, next), (vec![7, 8], Next::StopEndOfText));
    let (tokens, next) =
        generate(vec![1], &vec![p(7), Prediction { nan_count: 3, best_token: 8 }]);
    assert_eq!((tokens, next), (vec![7], Next::StopNan));
    let (tokens, next) = generate(vec![1], &(0..60).map(p).collect());
    assert_eq!((tokens.len(), next), (50, Next::StopFull));
    let mut g = Generation::new(vec![4, 5]);
    assert_eq!(g.advance(&p(6)), Next::Continue);
    let (input, last) = g.next_input();
    assert_eq!((input.len(), &input[0..4], last), (128, &[4, 5, 6, 0][..], 2));
    assert!(g.succeeded());
}
