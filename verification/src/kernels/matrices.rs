//! The matrices that the matrix kernels are tried on.
//!
//! Their elements are small integers, which half precision holds exactly, so a
//! product can be checked against integer arithmetic.

use vstd::prelude::*;

use crate::half::{
    exponent32, f16_to_f32, f32_to_f16, fraction32, half_of, pack_f16x2, packed, sign32, single_of,
};
use crate::index::{lemma_cell, lemma_next_row};
use crate::kernels::gemm::{block_operands, group_of, lane_of, warp_col, warp_row};

verus! {

/// The number `n` as a power of two times a number with a leading bit.
pub open spec fn doubled(n: nat, times: nat) -> nat
    decreases times,
{
    if times == 0 {
        n
    } else {
        2 * doubled(n, (times - 1) as nat)
    }
}

/// The bits of a float whose value is the integer `n`: its 24 significant bits are `n`
/// doubled as often as its exponent falls short of 23.
pub open spec fn is_float_of(bits: u32, n: u32) -> bool {
    if n == 0 {
        bits == 0
    } else {
        let e = exponent32(bits) - 127;
        &&& sign32(bits) == 0
        &&& 0 <= e <= 23
        &&& 0x80_0000 + fraction32(bits) == doubled(n as nat, (23 - e) as nat)
    }
}

/// The bits of the float for a small integer.
pub fn float_bits(n: u32) -> (bits: u32)
    requires
        n < 0x100_0000,
    ensures
        is_float_of(bits, n),
{
    if n == 0 {
        return 0;
    }
    let mut m: u32 = n;
    let mut e: u32 = 23;
    while m < 0x80_0000
        invariant
            0 < m < 0x100_0000,
            0 < n,
            e <= 23,
            m == doubled(n as nat, (23 - e) as nat),
            m < 0x80_0000 ==> e > 0,
        decreases e,
    {
        proof {
            lemma_doubled_grows(n as nat, (23 - e) as nat);
            lemma_doubled_room(n as nat, (23 - e) as nat);
        }
        m = m * 2;
        e = e - 1;
        proof {
            lemma_doubled_room(n as nat, (23 - e) as nat);
        }
    }
    let bits: u32 = (127 + e) * 0x80_0000 + (m - 0x80_0000);
    assert(exponent32(bits) == 127 + e && fraction32(bits) == m - 0x80_0000 && sign32(bits) == 0);
    bits
}

proof fn lemma_doubled_grows(n: nat, t: nat)
    ensures
        doubled(n, t + 1) == 2 * doubled(n, t),
{
}

/// Twenty-three doublings of a positive number reach the leading bit.
proof fn lemma_doubled_room(n: nat, t: nat)
    requires
        n > 0,
    ensures
        t >= 23 ==> doubled(n, t) >= 0x80_0000,
    decreases t,
{
    if t > 23 {
        lemma_doubled_room(n, (t - 1) as nat);
    } else if t == 23 {
        reveal_with_fuel(doubled, 24);
    }
}

/// Element `(i, k)` of the first test matrix.
pub open spec fn pattern_a_value(i: int, k: int) -> int {
    (i * 7 + k * 3) % 5 + 1
}

/// Element `(k, j)` of the second test matrix.
pub open spec fn pattern_b_value(k: int, j: int) -> int {
    (k * 11 + j * 13) % 7 + 1
}

/// Element `(i, k)` of the first test matrix.
pub fn pattern_a(i: usize, k: usize) -> (r: u32)
    requires
        i * 7 + k * 3 <= usize::MAX,
    ensures
        r == pattern_a_value(i as int, k as int),
{
    ((i * 7 + k * 3) % 5 + 1) as u32
}

/// Element `(k, j)` of the second test matrix.
pub fn pattern_b(k: usize, j: usize) -> (r: u32)
    requires
        k * 11 + j * 13 <= usize::MAX,
    ensures
        r == pattern_b_value(k as int, j as int),
{
    ((k * 11 + j * 13) % 7 + 1) as u32
}

/// What half precision keeps of a float.
pub open spec fn quantized(bits: u32) -> int {
    single_of(half_of(bits) as u16)
}

/// What half precision keeps of a float.
pub fn quantize(bits: u32) -> (r: u32)
    ensures
        r == quantized(bits),
{
    f16_to_f32(f32_to_f16(bits))
}

/// The integers from 1 to 7 pass through half precision unchanged.
pub proof fn small_integers_are_exact(bits: u32, n: u32)
    requires
        1 <= n <= 7,
        is_float_of(bits, n),
    ensures
        quantized(bits) == bits,
{
    let e = exponent32(bits) - 127;
    let t = (23 - e) as nat;
    // the significant bits are n doubled t times, so their low bits are clear
    assert(t >= 21) by {
        if t < 21 {
            lemma_doubled_bound(n as nat, t);
        }
    }
    assert(doubled(n as nat, t) % 0x2000 == 0) by {
        lemma_doubled_multiple(n as nat, t, 13);
    }
    assert(fraction32(bits) % 0x2000 == 0);
    assert(bits as int % 0x2000 == fraction32(bits) % 0x2000);
    crate::half::narrowing_truncates(bits);
}

proof fn lemma_doubled_bound(n: nat, t: nat)
    requires
        n <= 7,
        t <= 20,
    ensures
        doubled(n, t) <= 7 * 0x10_0000,
        doubled(n, t) < 0x80_0000,
    decreases t,
{
    lemma_doubled_at_most(n, 7, t);
    lemma_doubled_monotone(7, t, 20);
    assert(doubled(7, 20) == 7 * 0x10_0000) by {
        reveal_with_fuel(doubled, 21);
    }
}

proof fn lemma_doubled_at_most(n: nat, m: nat, t: nat)
    requires
        n <= m,
    ensures
        doubled(n, t) <= doubled(m, t),
    decreases t,
{
    if t > 0 {
        lemma_doubled_at_most(n, m, (t - 1) as nat);
    }
}

proof fn lemma_doubled_monotone(n: nat, s: nat, t: nat)
    requires
        s <= t,
    ensures
        doubled(n, s) <= doubled(n, t),
    decreases t,
{
    if s < t {
        lemma_doubled_monotone(n, s, (t - 1) as nat);
    }
}

proof fn lemma_doubled_multiple(n: nat, t: nat, s: nat)
    requires
        s == 13,
        t >= s,
    ensures
        doubled(n, t) % 0x2000 == 0,
    decreases t,
{
    if t > s {
        lemma_doubled_multiple(n, (t - 1) as nat, s);
    } else {
        reveal_with_fuel(doubled, 14);
    }
}

/// A row-major matrix of floats packed two to a word along its rows.
pub open spec fn packed_rows(vals: Seq<u32>, m: nat, k_half: nat) -> Seq<u32> {
    Seq::new(
        m * k_half,
        |x: int|
            {
                let i = x / k_half as int;
                let kp = x % k_half as int;
                packed(
                    half_of(vals[i * (2 * k_half) + 2 * kp]),
                    half_of(vals[i * (2 * k_half) + 2 * kp + 1]),
                ) as u32
            },
    )
}

/// A row-major matrix of floats packed two to a word along its columns.
pub open spec fn packed_cols(vals: Seq<u32>, k_half: nat, n: nat) -> Seq<u32> {
    Seq::new(
        n * k_half,
        |x: int|
            {
                let c = x / k_half as int;
                let kp = x % k_half as int;
                packed(half_of(vals[(2 * kp) * n + c]), half_of(vals[(2 * kp + 1) * n + c])) as u32
            },
    )
}

/// Packs a matrix of `m` rows and `2 * k_half` columns along its rows.
pub fn pack_rows(vals: &Vec<u32>, m: usize, k_half: usize) -> (r: Vec<u32>)
    requires
        m * (2 * k_half) <= vals@.len(),
    ensures
        r@ == packed_rows(vals@, m as nat, k_half as nat),
{
    let size: usize = vals.len();
    let ghost want = packed_rows(vals@, m as nat, k_half as nat);
    let mut r: Vec<u32> = Vec::new();
    proof {
        lemma_next_row(0, k_half as int);
    }
    for i in 0..m
        invariant
            size == vals@.len(),
            m * (2 * k_half) <= size,
            want.len() == m * k_half,
            want == packed_rows(vals@, m as nat, k_half as nat),
            r@ == want.take(i * k_half),
    {
        proof {
            lemma_next_row(i as int, k_half as int);
            assert(i * (2 * k_half) + 2 * k_half <= m * (2 * k_half) && 0 <= i * (2 * k_half)
                && i * k_half + k_half <= m * k_half && 0 <= i * k_half) by (nonlinear_arith)
                requires
                    0 <= i < m,
                    0 <= k_half,
            ;
        }
        for kp in 0..k_half
            invariant
                0 <= i < m,
                size == vals@.len(),
                0 <= i * (2 * k_half),
                i * (2 * k_half) + 2 * k_half <= size,
                i * k_half + k_half <= m * k_half,
                want.len() == m * k_half,
                want == packed_rows(vals@, m as nat, k_half as nat),
                r@ == want.take(i * k_half + kp),
        {
            proof {
                lemma_cell(i as int, m as int, kp as int, k_half as int);
            }
            let at: usize = i * (2 * k_half) + 2 * kp;
            r.push(pack_f16x2(vals[at], vals[at + 1]));
        }
    }
    assert(r@ =~= want);
    r
}

/// Packs a matrix of `2 * k_half` rows and `n` columns along its columns.
pub fn pack_cols(vals: &Vec<u32>, k_half: usize, n: usize) -> (r: Vec<u32>)
    requires
        (2 * k_half) * n <= vals@.len(),
        2 * k_half <= usize::MAX,
    ensures
        r@ == packed_cols(vals@, k_half as nat, n as nat),
{
    let size: usize = vals.len();
    let ghost want = packed_cols(vals@, k_half as nat, n as nat);
    let mut r: Vec<u32> = Vec::new();
    proof {
        lemma_next_row(0, k_half as int);
    }
    for col in 0..n
        invariant
            size == vals@.len(),
            (2 * k_half) * n <= size,
            2 * k_half <= usize::MAX,
            want.len() == n * k_half,
            want == packed_cols(vals@, k_half as nat, n as nat),
            r@ == want.take(col * k_half),
    {
        proof {
            lemma_next_row(col as int, k_half as int);
            assert(col * k_half + k_half <= n * k_half && 0 <= col * k_half) by (nonlinear_arith)
                requires
                    0 <= col < n,
                    0 <= k_half,
            ;
        }
        for kp in 0..k_half
            invariant
                0 <= col < n,
                size == vals@.len(),
                (2 * k_half) * n <= size,
                2 * k_half <= usize::MAX,
                col * k_half + k_half <= n * k_half,
                want.len() == n * k_half,
                want == packed_cols(vals@, k_half as nat, n as nat),
                r@ == want.take(col * k_half + kp),
        {
            proof {
                lemma_cell(col as int, n as int, kp as int, k_half as int);
                lemma_cell(2 * kp, 2 * k_half, col as int, n as int);
                lemma_cell(2 * kp + 1, 2 * k_half, col as int, n as int);
            }
            r.push(pack_f16x2(vals[2 * kp * n + col], vals[(2 * kp + 1) * n + col]));
        }
    }
    assert(r@ =~= want);
    r
}

/// The words that a lane hands to the instruction hold the elements that the product
/// needs: of `A` rows `r` and `r + 8`, of `B` column `c`, each at the lane's place along
/// the common dimension and eight further on.
pub proof fn lanes_get_matching_elements(
    a: Seq<u32>,
    b: Seq<u32>,
    m: nat,
    n: nat,
    k_half: nat,
    block_m: int,
    block_n: int,
    t: int,
    tid: int,
)
    requires
        0 <= tid < 128,
        0 <= block_m,
        0 <= block_n,
        (block_m + 1) * 32 <= m,
        (block_n + 1) * 16 <= n,
        0 <= t,
        t * 8 + 8 <= k_half,
    ensures
        ({
            let ops = block_operands(
                packed_rows(a, m, k_half),
                packed_cols(b, k_half, n),
                block_m,
                block_n,
                k_half as int,
                t,
                tid,
            );
            let r = block_m * 32 + warp_row(tid) * 16 + group_of(tid);
            let c = block_n * 16 + warp_col(tid) * 8 + group_of(tid);
            let k = 2 * (t * 8 + lane_of(tid));
            let width = 2 * k_half;
            let pair_a = |row: int, at: int|
                packed(half_of(a[row * width + at]), half_of(a[row * width + at + 1])) as u32;
            let pair_b = |at: int|
                packed(half_of(b[at * n + c]), half_of(b[(at + 1) * n + c])) as u32;
            &&& ops.a0 == pair_a(r, k)
            &&& ops.a1 == pair_a(r, k + 8)
            &&& ops.a2 == pair_a(r + 8, k)
            &&& ops.a3 == pair_a(r + 8, k + 8)
            &&& ops.b0 == pair_b(k)
            &&& ops.b1 == pair_b(k + 8)
        }),
{
    let r = block_m * 32 + warp_row(tid) * 16 + group_of(tid);
    let c = block_n * 16 + warp_col(tid) * 8 + group_of(tid);
    let k = t * 8 + lane_of(tid);
    lemma_cell(r, m as int, k, k_half as int);
    lemma_cell(r, m as int, k + 4, k_half as int);
    lemma_cell(r + 8, m as int, k, k_half as int);
    lemma_cell(r + 8, m as int, k + 4, k_half as int);
    lemma_cell(c, n as int, k, k_half as int);
    lemma_cell(c, n as int, k + 4, k_half as int);
}

/// The sum of the products of the test matrices over the first `k` elements.
pub open spec fn reference_sum(i: int, j: int, k: nat) -> int
    decreases k,
{
    if k == 0 {
        0
    } else {
        reference_sum(i, j, (k - 1) as nat) + pattern_a_value(i, k - 1) * pattern_b_value(k - 1, j)
    }
}

/// Element `(i, j)` of the product of the test matrices, in integer arithmetic.
pub fn reference_element(i: usize, j: usize, k: usize) -> (r: u32)
    requires
        i <= 0xFFFF,
        j <= 0xFFFF,
        k <= 0xFFFF,
    ensures
        r == reference_sum(i as int, j as int, k as nat),
        r <= 35 * k,
{
    let mut sum: u32 = 0;
    for p in 0..k
        invariant
            i <= 0xFFFF,
            j <= 0xFFFF,
            k <= 0xFFFF,
            sum == reference_sum(i as int, j as int, p as nat),
            sum <= 35 * p,
    {
        let a: u32 = pattern_a(i, p);
        let b: u32 = pattern_b(p, j);
        assert(0 <= a * b <= 35) by (nonlinear_arith)
            requires
                0 <= a <= 5,
                0 <= b <= 7,
        ;
        sum = sum + a * b;
    }
    sum
}

/// The number of blocks of a product, and whether all of them have reported.
pub fn product_finished(m: u32, n: u32, status: u32) -> (r: (u32, bool))
    requires
        (m / 32) * (n / 16) <= u32::MAX,
    ensures
        r.0 == (m / 32) * (n / 16),
        r.1 == (status >= r.0),
{
    let total: u32 = (m / 32) * (n / 16);
    (total, status >= total)
}

} // verus!
