use gpu_host::checks::matrices::{build, expected_product, TestMatrix};
use gpu_host::half::f16_to_f32;
use gpu_host::inference::prepare::to_col_major;
use gpu_host::kernels::attention::{attention_head, flash_attention};
use gpu_host::kernels::basic::{
    f32_math_test, grid_for, integration_sys_store, join_words, test_activemask, test_asm_cas_sys,
    test_lane_id, test_u64_cas, test_u64_exchange, test_u64_fetch_add, vector_add,
    write_thread_idx, Store, Thread,
};
use gpu_host::kernels::elementwise::{
    bias_add, concat_heads, elementwise_add, embedding_lookup, f32_to_f16x2_pack, gelu_forward,
    split_qkv, zero_pad,
};
use gpu_host::kernels::gemm::{
    full_gemm, full_gemm_f32in, gemm_f32, scatter_results, store_by_thread, store_results,
    test_gemm_softmax_pipeline, test_mma_m16n8k16, test_mma_mapped, test_multi_tile_gemm,
    test_shared_memory, test_tiled_gemm, Accumulators, Operands,
};
use gpu_host::kernels::matrices::{
    float_bits, pack_cols, pack_rows, pattern_a, pattern_b, product_finished, quantize,
    reference_element,
};
use gpu_host::kernels::reduce::{layer_norm, test_softmax, warp_reduce_sum_f32};
use gpu_host::reference::{self, Shape};
use gpu_host::scalar::{Constant, Scalar, Term};
use gpu_host::tensor::{dot_product, read_elements};

/// Single-precision numbers.
#[derive(Clone, Copy, Debug, PartialEq)]
struct F32(f32);

impl Scalar for F32 {
    fn constant(c: Constant) -> F32 {
        F32(match c {
            Constant::Zero => 0.0,
            Constant::One => 1.0,
            Constant::Two => 2.0,
            Constant::Half => 0.5,
            Constant::MinusOne => -1.0,
            Constant::GeluScale => 0.797_884_6,
            Constant::GeluCoefficient => 0.044_715,
            Constant::Masked => -1.0e38,
            Constant::NegInfinity => f32::NEG_INFINITY,
        })
    }
    fn from_count(n: usize) -> F32 {
        F32(n as f32)
    }
    fn from_bits(bits: u32) -> F32 {
        F32(f32::from_bits(bits))
    }
    fn to_bits(&self) -> u32 {
        self.0.to_bits()
    }
    fn dup(&self) -> F32 {
        *self
    }
    fn plus(&self, other: &F32) -> F32 {
        F32(self.0 + other.0)
    }
    fn minus(&self, other: &F32) -> F32 {
        F32(self.0 - other.0)
    }
    fn times(&self, other: &F32) -> F32 {
        F32(self.0 * other.0)
    }
    fn over(&self, other: &F32) -> F32 {
        F32(self.0 / other.0)
    }
    fn fused(&self, factor: &F32, addend: &F32) -> F32 {
        F32(self.0.mul_add(factor.0, addend.0))
    }
    fn sqrt(&self) -> F32 {
        F32(self.0.sqrt())
    }
    fn exp(&self) -> F32 {
        F32(self.0.exp())
    }
    fn tanh(&self) -> F32 {
        F32(self.0.tanh())
    }
    fn larger(&self, other: &F32) -> F32 {
        F32(self.0.max(other.0))
    }
    fn exceeds(&self, other: &F32) -> bool {
        self.0 > other.0
    }
}

fn floats(x: &[f32]) -> Vec<F32> {
    x.iter().map(|&v| F32(v)).collect()
}

fn plain(x: &[F32]) -> Vec<f32> {
    x.iter().map(|v| v.0).collect()
}

fn near(a: f32, b: f32) -> bool {
    (a - b).abs() < 1e-4
}

/// All threads of a launch over `n` elements.
fn threads(n: u32) -> impl Iterator<Item = Thread> {
    let blocks = grid_for(n as usize, 32) as u32;
    (0..blocks).flat_map(|block| (0..32).map(move |tid| Thread { block, block_dim: 32, tid }))
}

#[test]
fn test_write_thread_idx() {
    let mut result = vec![0u32; 32];
    for tid in 0..32 {
        write_thread_idx(&Thread { block: 0, block_dim: 32, tid }, &mut result, 32);
    }
    for i in 0..32 {
        assert_eq!(result[i], i as u32, "thread {i} should write its index");
    }
}

#[test]
fn threads_write_their_index() {
    let mut out = vec![99u32; 40];
    for t in threads(40) {
        write_thread_idx(&t, &mut out, 40);
    }
    assert_eq!(out, (0..40).collect::<Vec<u32>>());
}

#[test]
fn masks_and_lanes_are_stored() {
    let t = Thread { block: 1, block_dim: 4, tid: 2 };
    let mut out = vec![0u32; 8];
    test_activemask(&t, 0xF, &mut out, 8);
    assert_eq!(out[6], 0xF);
    test_lane_id(&t, 2, &mut out, 6);
    assert_eq!(out[6], 0xF);
}

#[test]
fn vectors_are_added() {
    let a = floats(&[1.0, 2.0, 3.0]);
    let b = floats(&[10.0, 20.0, 30.0]);
    let mut c = floats(&[0.0; 3]);
    for t in threads(3) {
        vector_add(&t, &a, &b, &mut c, 3);
    }
    assert_eq!(plain(&c), vec![11.0, 22.0, 33.0]);
}

#[test]
fn data_comes_before_its_flag() {
    let first = Thread { block: 0, block_dim: 32, tid: 0 };
    assert_eq!(integration_sys_store(&first, 7), vec![Store::Data(7), Store::Flag(1)]);
    let other = Thread { block: 0, block_dim: 32, tid: 1 };
    assert_eq!(integration_sys_store(&other, 7), vec![]);
}

#[test]
fn atomics() {
    assert_eq!(join_words(1, 2), 0x1_0000_0002);
    let mut cell = 5u32;
    let mut out = 0u32;
    test_asm_cas_sys(&mut cell, 5, 9, &mut out);
    assert_eq!((cell, out), (9, 5));
    test_asm_cas_sys(&mut cell, 5, 1, &mut out);
    assert_eq!((cell, out), (9, 9));
    let mut wide = 0x1_0000_0002u64;
    let mut out = 0u64;
    test_u64_cas(&mut wide, 2, 1, 4, 3, &mut out);
    assert_eq!((wide, out), (0x3_0000_0004, 0x1_0000_0002));
    test_u64_fetch_add(&mut wide, u32::MAX, u32::MAX, &mut out);
    assert_eq!((wide, out), (0x3_0000_0003, 0x3_0000_0004));
    test_u64_exchange(&mut wide, 8, 0, &mut out);
    assert_eq!((wide, out), (8, 0x3_0000_0003));
}

#[test]
fn arithmetic() {
    let mut out = floats(&[0.0; 9]);
    f32_math_test(0, &mut out);
    assert_eq!(plain(&out), vec![7.0, 12.0, 2.5, 3.0, 70.0, 5.0, 0.0, 1.0, 0.0]);
    let mut out = floats(&[9.0; 8]);
    f32_math_test(1, &mut out);
    assert_eq!(plain(&out), vec![9.0; 8]);
}

#[test]
fn embeddings_are_looked_up() {
    let wte = floats(&[0.0, 1.0, 10.0, 11.0, 20.0, 21.0]);
    let wpe = floats(&[0.5, 0.25, 0.75, 0.125]);
    let mut out = floats(&[0.0; 4]);
    let mut status = 0;
    for t in threads(4) {
        embedding_lookup(&t, &wte, &wpe, &vec![2, 0], &mut out, 2, 2, &mut status);
    }
    assert_eq!(plain(&out), vec![20.5, 21.25, 0.75, 1.125]);
    assert_eq!(status, 1);
}

#[test]
fn biases_residuals_and_padding() {
    let mut x = floats(&[1.0, 2.0, 3.0, 4.0]);
    let mut status = 0;
    for t in threads(4) {
        bias_add(&t, &mut x, &floats(&[10.0, 20.0]), 2, 4, &mut status);
    }
    assert_eq!(plain(&x), vec![11.0, 22.0, 13.0, 24.0]);
    for t in threads(4) {
        elementwise_add(&t, &mut x, &floats(&[1.0; 4]), 4);
    }
    assert_eq!(plain(&x), vec![12.0, 23.0, 14.0, 25.0]);
    for t in threads(4) {
        zero_pad(&t, &mut x, 3, 4);
    }
    assert_eq!(plain(&x), vec![12.0, 23.0, 14.0, 0.0]);
}

#[test]
fn heads_are_split_and_joined() {
    let (seq, heads, d) = (2u32, 2u32, 2u32);
    let input: Vec<F32> = (0..24).map(|i| F32(i as f32)).collect();
    let (mut q, mut k, mut v) = (floats(&[0.0; 8]), floats(&[0.0; 8]), floats(&[0.0; 8]));
    for t in threads(8) {
        split_qkv(&t, &input, &mut q, &mut k, &mut v, seq, heads, d);
    }
    assert_eq!(plain(&q), vec![0.0, 1.0, 12.0, 13.0, 2.0, 3.0, 14.0, 15.0]);
    assert_eq!(plain(&k), vec![4.0, 5.0, 16.0, 17.0, 6.0, 7.0, 18.0, 19.0]);
    assert_eq!(plain(&v), vec![8.0, 9.0, 20.0, 21.0, 10.0, 11.0, 22.0, 23.0]);
    let mut joined = floats(&[0.0; 8]);
    for t in threads(8) {
        concat_heads(&t, &q, &mut joined, seq, heads, d);
    }
    assert_eq!(plain(&joined), vec![0.0, 1.0, 2.0, 3.0, 12.0, 13.0, 14.0, 15.0]);
}

#[test]
fn the_activation() {
    let input = floats(&[0.0, 1.0, -1.0, 3.0]);
    let mut out = floats(&[9.0; 4]);
    let mut status = 0;
    for t in threads(4) {
        gelu_forward(&t, &input, &mut out, 4, &mut status);
    }
    assert_eq!(out[0].0, 0.0);
    assert!(near(out[1].0, 0.841_192));
    assert!(near(out[2].0, -0.158_808));
    assert!(near(out[3].0, 2.996_363));
}

#[test]
fn pairs_of_halves_are_packed() {
    let mut out = vec![0u32; 2];
    for t in threads(2) {
        f32_to_f16x2_pack(&t, &vec![0x3C00, 0x4000, 0x4200, 0x4400], &mut out, 2);
    }
    assert_eq!(out, vec![0x4000_3C00, 0x4400_4200]);
}

#[test]
fn all_lanes_get_the_sum() {
    let vals: Vec<F32> = (0..32).map(|i| F32(i as f32)).collect();
    assert_eq!(plain(&warp_reduce_sum_f32(vals)), vec![496.0; 32]);
}

#[test]
fn rows_are_normalized() {
    let d = 64;
    let input: Vec<F32> = (0..2 * d).map(|i| F32((i % d) as f32)).collect();
    let mut out = floats(&[0.0; 128]);
    let mut status = 0;
    let (gamma, beta) = (floats(&[2.0; 64]), floats(&[1.0; 64]));
    layer_norm(1, &input, &mut out, &gamma, &beta, d as u32, &F32(1e-5), &mut status);
    assert_eq!(plain(&out[0..64]), vec![0.0; 64]);
    let mean: f32 = out[64..128].iter().map(|v| v.0).sum::<f32>() / 64.0;
    assert!(near(mean, 1.0));
    assert!(near(out[64].0, 1.0 - 2.0 * 31.5 / (341.25f32 + 1e-5).sqrt()));
}

#[test]
fn softmax_adds_up() {
    let input: Vec<F32> = (0..16).map(|i| F32(i as f32)).collect();
    let mut out = floats(&[0.0; 16]);
    let mut status = 0;
    test_softmax(&input, &mut out, 16, &mut status);
    assert_eq!(status, 1);
    assert!(near(out.iter().map(|v| v.0).sum::<f32>(), 1.0));
    assert!(out.windows(2).all(|w| w[0].0 <= w[1].0));
    assert!(near(out[15].0 / out[14].0, 1.0f32.exp()));
}

#[test]
fn softmax_takes_in_every_element() {
    let mut status = 0;
    let mut out = floats(&[7.0; 4]);
    test_softmax(&floats(&[0.0; 3]), &mut out, 3, &mut status);
    assert_eq!(status, 1);
    assert_eq!(plain(&out), vec![1.0 / 3.0, 1.0 / 3.0, 1.0 / 3.0, 7.0]);
    test_softmax(&floats(&[]), &mut out, 0, &mut 0);
    assert_eq!(out[3].0, 7.0);
    for n in 1..=32usize {
        for top in 0..n {
            let mut input = vec![1.0f32; n];
            input[top] = 5.0;
            let total = 1.0 + (n - 1) as f32 * (-4.0f32).exp();
            let mut out = floats(&vec![0.0; n]);
            test_softmax(&floats(&input), &mut out, n as u32, &mut status);
            for (i, v) in out.iter().enumerate() {
                let e = if i == top { 1.0 } else { (-4.0f32).exp() };
                assert!(near(v.0, e / total), "{n} {top} {i}");
            }
        }
    }
}

#[test]
fn rows_of_any_length_are_normalized() {
    for d in [1usize, 2, 31, 33, 40, 64, 65, 95] {
        let input: Vec<F32> = (0..2 * d).map(|i| F32((i as f32 * 0.7).sin())).collect();
        let gamma: Vec<F32> = (0..d).map(|i| F32(1.0 + i as f32)).collect();
        let beta: Vec<F32> = (0..d).map(|i| F32(i as f32)).collect();
        let mut out = floats(&vec![0.0; 2 * d]);
        let mut status = 0;
        for row in 0..2 {
            layer_norm(row, &input, &mut out, &gamma, &beta, d as u32, &F32(1e-5), &mut status);
        }
        assert_eq!(status, 2);
        let want = reference::layer_norm(&input, &gamma, &beta, d, &F32(1e-5));
        for (a, b) in out.iter().zip(&want) {
            assert!((a.0 - b.0).abs() < 1e-2, "{d}: {} {}", a.0, b.0);
        }
    }
    // A row without elements counts all the same.
    let mut status = 3;
    layer_norm(5, &floats(&[]), &mut floats(&[]), &floats(&[]), &floats(&[]), 0, &F32(1e-5), &mut status);
    assert_eq!(status, 4);
    // A constant row is moved to `beta`.
    let mut out = floats(&[0.0; 33]);
    let beta: Vec<F32> = (0..33).map(|i| F32(i as f32)).collect();
    let ones = floats(&[1.0; 33]);
    layer_norm(0, &ones, &mut out, &ones, &beta, 33, &F32(1e-5), &mut 0);
    assert_eq!(plain(&out), plain(&beta));
}

/// Attention computed plainly for one row.
fn attended(q: &[f32], k: &[f32], v: &[f32], seq: usize, d: usize, row: usize, causal: bool) -> Vec<f32> {
    let last = if causal { row + 1 } else { seq };
    let scores: Vec<f32> = (0..last)
        .map(|j| (0..d).map(|x| q[row * d + x] * k[j * d + x]).sum::<f32>() / (d as f32).sqrt())
        .collect();
    let max = scores.iter().cloned().fold(f32::MIN, f32::max);
    let e: Vec<f32> = scores.iter().map(|s| (s - max).exp()).collect();
    let sum: f32 = e.iter().sum();
    (0..d).map(|x| (0..last).map(|j| e[j] / sum * v[j * d + x]).sum()).collect()
}

#[test]
fn attention_mixes_the_values() {
    let (seq, d) = (40usize, 4usize);
    let wave = |f: f32| -> Vec<f32> { (0..seq * d).map(|i| (i as f32 * f).sin()).collect() };
    let (q, k, v) = (wave(0.7), wave(0.3), wave(1.1));
    let (fq, fk, fv) = (floats(&q), floats(&k), floats(&v));
    for causal in [false, true] {
        let mut plain_out = floats(&vec![0.0; seq * d]);
        let mut flash_out = floats(&vec![0.0; seq * d]);
        let (mut s1, mut s2) = (0, 0);
        for tid in 0..seq as u32 {
            attention_head(0, tid, &fq, &fk, &fv, &mut plain_out, 40, 4, causal as u32, &mut s1);
        }
        for tile in 0..2 {
            flash_attention(0, tile, &fq, &fk, &fv, &mut flash_out, 40, 4, causal as u32, &mut s2);
        }
        for row in 0..seq {
            let want = attended(&q, &k, &v, seq, d, row, causal);
            for x in 0..d {
                assert!(near(plain_out[row * d + x].0, want[x]));
                assert!(near(flash_out[row * d + x].0, want[x]));
            }
        }
    }
}

#[test]
fn matrices_are_multiplied_in_single_precision() {
    let (k, n) = (20usize, 16usize);
    let a: Vec<F32> = (0..32 * k).map(|i| F32((i % 7) as f32)).collect();
    let b: Vec<F32> = (0..n * k).map(|i| F32((i % 5) as f32)).collect();
    let mut d = floats(&vec![0.0; 32 * n]);
    let mut status = 0;
    gemm_f32(&a, &b, &mut d, k as u32, n as u32, 0, 0, &mut status);
    for r in 0..32 {
        for c in 0..n {
            let want: f32 = (0..k).map(|x| a[r * k + x].0 * b[c * k + x].0).sum();
            assert_eq!(d[r * n + c].0, want);
        }
    }
}

#[test]
fn lanes_load_their_fragments() {
    let a: Vec<u32> = (0..128).collect();
    let b: Vec<u32> = (1000..1064).collect();
    let ops = test_mma_mapped(&a, &b, 5);
    assert_eq!(
        ops,
        Operands { a0: 9, a1: 13, a2: 73, a3: 77, b0: 1005, b1: 1037 }
    );
    assert_eq!(ops, test_multi_tile_gemm(&a, &b, 1, 0, 5));
    assert_eq!(
        test_tiled_gemm(&a, &b),
        Operands { a0: 0, a1: 1, a2: 2, a3: 3, b0: 1000, b1: 1001 }
    );
    let (zero, c) = test_mma_m16n8k16(&a, 2);
    assert_eq!(zero.a0, 0);
    assert_eq!(c, Accumulators { c0: 8, c1: 9, c2: 10, c3: 11 });
}

#[test]
fn packed_and_unpacked_inputs_load_the_same() {
    let vals: Vec<u32> =
        (0..32 * 16).map(|x| float_bits(pattern_a(x / 16, x % 16))).collect();
    let bvals: Vec<u32> = (0..16 * 16).map(|x| float_bits(pattern_b(x / 16, x % 16))).collect();
    let a = pack_rows(&vals, 32, 8);
    let b = pack_cols(&bvals, 8, 16);
    let halves: Vec<u32> = vals.iter().map(|&v| gpu_host::half::f32_to_f16(v) as u32).collect();
    for tid in 0..128 {
        assert_eq!(
            full_gemm(&a, &b, 1, 0, 0, 0, tid),
            full_gemm_f32in(&halves, &b, 1, 0, 0, 0, tid)
        );
    }
}

#[test]
fn results_fill_the_block() {
    let c = Accumulators { c0: 1, c1: 1, c2: 1, c3: 1 };
    let mut d = vec![0u32; 32 * 16];
    for tid in 0..128 {
        store_results(&mut d, 0, 0, tid, 16, &c);
    }
    assert_eq!(d, vec![1; 512]);
    let mut d = vec![0u32; 128];
    for tid in 0..32 {
        scatter_results(&mut d, tid, &c);
    }
    assert_eq!(d, vec![1; 128]);
    let mut d = vec![0u32; 128];
    store_by_thread(&mut d, 3, &Accumulators { c0: 5, c1: 6, c2: 7, c3: 8 });
    assert_eq!(&d[12..16], &[5, 6, 7, 8]);
}

#[test]
fn neighbours_swap() {
    let mut out = vec![0u32; 4];
    let mut status = 0;
    test_shared_memory(&mut out, 4, &mut status);
    assert_eq!(out, vec![2, 1, 4, 3]);
    assert_eq!(status, 1);
}

#[test]
fn equal_scores_share_equally() {
    let d = floats(&[16.0; 128]);
    let mut out = floats(&[0.0; 128]);
    for tid in 0..32 {
        test_gemm_softmax_pipeline(&d, &mut out, tid);
    }
    assert_eq!(plain(&out), vec![0.125; 128]);
}

#[test]
fn integers_as_floats() {
    for n in [0u32, 1, 2, 3, 7, 35, 1000, 0xFF_FFFF] {
        assert_eq!(f32::from_bits(float_bits(n)), n as f32);
    }
    assert_eq!(quantize(7.0f32.to_bits()), 7.0f32.to_bits());
    assert_eq!(reference_element(0, 0, 2), 1 * 1 + 4 * 5);
    assert_eq!(product_finished(768, 768, 1152), (1152, true));
    assert_eq!(product_finished(768, 768, 1151), (1152, false));
}

#[test]
fn fragments_make_up_the_product() {
    let (m, n, k) = (32usize, 16usize, 32usize);
    let (ma, mb) = (TestMatrix::PatternA, TestMatrix::PatternB);
    let a = pack_rows(&build(ma, m, k), m, k / 2);
    let b = pack_cols(&build(mb, k, n), k / 2, n);
    let half = |h: u32| f32::from_bits(f16_to_f32(h as u16));
    let pair = |x: u32, y: u32| {
        half(x & 0xFFFF) * half(y & 0xFFFF) + half(x >> 16) * half(y >> 16)
    };
    let mut d = vec![0u32; m * n];
    for tid in 0..128u32 {
        let (warp, group, lane) = (tid / 32, tid % 32 / 4, tid % 4);
        let cell = |reg: u32| -> u32 {
            let column = 2 * lane + reg % 2;
            let mut sum = 0.0f32;
            for t in 0..2 {
                for l in 0..4 {
                    let row = full_gemm(&a, &b, 2, 0, 0, t, warp * 32 + group * 4 + l);
                    let col = full_gemm(&a, &b, 2, 0, 0, t, warp * 32 + column * 4 + l);
                    let (x, y) = if reg < 2 { (row.a0, row.a1) } else { (row.a2, row.a3) };
                    sum += pair(x, col.b0) + pair(y, col.b1);
                }
            }
            sum.to_bits()
        };
        let c = Accumulators { c0: cell(0), c1: cell(1), c2: cell(2), c3: cell(3) };
        store_results(&mut d, 0, 0, tid, n as u32, &c);
    }
    for i in 0..m {
        for j in 0..n {
            assert_eq!(f32::from_bits(d[i * n + j]), expected_product(ma, mb, i, j, k) as f32);
        }
    }
}

#[test]
fn causal_rows_do_not_see_the_future() {
    let (seq, d) = (40usize, 4usize);
    let wave = |f: f32| -> Vec<f32> { (0..seq * d).map(|i| (i as f32 * f).sin()).collect() };
    let (q, k, v) = (wave(0.7), wave(0.3), wave(1.1));
    let run = |k: &[f32], v: &[f32]| {
        let mut out = floats(&vec![0.0; seq * d]);
        for tile in 0..2 {
            let (q, k, v) = (floats(&q), floats(k), floats(v));
            flash_attention(0, tile, &q, &k, &v, &mut out, 40, 4, 1, &mut 0);
        }
        plain(&out)
    };
    let whole = run(&k, &v);
    for row in [0usize, 1, 15, 31, 32, 38] {
        let (mut k2, mut v2) = (k.clone(), v.clone());
        for x in (row + 1) * d..seq * d {
            k2[x] = 3.0 - k2[x];
            v2[x] = 100.0;
        }
        let other = run(&k2, &v2);
        assert_eq!(&whole[..(row + 1) * d], &other[..(row + 1) * d]);
        assert_ne!(&whole[(row + 1) * d..], &other[(row + 1) * d..]);
    }
    assert_eq!(&whole[0..d], &v[0..d]);
}

#[test]
fn kernels_agree_with_the_reference() {
    let wave = |n: usize, f: f32| -> Vec<F32> { (0..n).map(|i| F32((i as f32 * f).sin())).collect() };
    let all_near = |x: &[F32], y: &[F32]| {
        x.len() == y.len() && x.iter().zip(y).all(|(a, b)| near(a.0, b.0))
    };
    let mut status = 0;
    // Normalization of three rows.
    let (x, gamma, beta) = (wave(3 * 64, 0.7), wave(64, 0.3), wave(64, 1.1));
    let mut normed = wave(3 * 64, 0.0);
    for row in 0..3 {
        layer_norm(row, &x, &mut normed, &gamma, &beta, 64, &F32(1e-5), &mut status);
    }
    assert!(all_near(&normed, &reference::layer_norm(&x, &gamma, &beta, 64, &F32(1e-5))));
    // A product with a matrix turned to columns.
    let (k, n) = (64usize, 16usize);
    let (a, b) = (wave(32 * k, 0.2), wave(k * n, 0.9));
    let bits: Vec<u32> = b.iter().map(|v| v.0.to_bits()).collect();
    let turned: Vec<F32> =
        to_col_major(&bits, k, n).iter().map(|&v| F32(f32::from_bits(v))).collect();
    let mut product = wave(32 * n, 0.0);
    gemm_f32(&a, &turned, &mut product, k as u32, n as u32, 0, 0, &mut status);
    assert!(all_near(&product, &reference::matmul(&a, &b, 32, k, n)));
    // Attention: split into heads, over tiles, joined again.
    let shape = Shape { d_model: 8, n_heads: 2, d_head: 4, d_ffn: 8 };
    let seq = 40u32;
    let qkv = wave(seq as usize * 24, 0.37);
    let size = seq as usize * 8;
    let (mut q, mut kk, mut v) = (wave(size, 0.0), wave(size, 0.0), wave(size, 0.0));
    let (mut out, mut joined) = (wave(size, 0.0), wave(size, 0.0));
    for t in threads(size as u32) {
        split_qkv(&t, &qkv, &mut q, &mut kk, &mut v, seq, 2, 4);
    }
    for head in 0..2 {
        for tile in 0..2 {
            flash_attention(head, tile, &q, &kk, &v, &mut out, seq, 4, 1, &mut status);
        }
    }
    for t in threads(size as u32) {
        concat_heads(&t, &out, &mut joined, seq, 2, 4);
    }
    assert!(all_near(&joined, &reference::attention(&qkv, seq as usize, &shape)));
    // The activation.
    let mut active = wave(size, 0.0);
    for t in threads(size as u32) {
        gelu_forward(&t, &q, &mut active, size as u32, &mut status);
    }
    let want: Vec<F32> = q.iter().map(|v| reference::gelu(v)).collect();
    assert!(all_near(&active, &want));
}

#[test]
fn elements_are_read_from_memory() {
    let mut data = vec![0u8; 4];
    data.extend_from_slice(&1.5f32.to_le_bytes());
    data.extend_from_slice(&2.0f32.to_le_bytes());
    let x: Vec<F32> = read_elements(&data, 4, 2);
    assert_eq!(plain(&x), vec![1.5, 2.0]);
    assert_eq!(dot_product(&x, &x, 2).0, 6.25);
}

#[test]
fn terms_record_what_was_computed() {
    let a = vec![Term::Bits(1)];
    let b = vec![Term::Bits(2)];
    let expected = Term::Sum(
        Box::new(Term::Constant(Constant::Zero)),
        Box::new(Term::Product(Box::new(Term::Bits(1)), Box::new(Term::Bits(2)))),
    );
    assert_eq!(dot_product(&a, &b, 1), expected);
}
