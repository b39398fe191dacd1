//! Matrix multiplication.
//!
//! The tensor-core kernels stage tiles of the operands in shared memory, from which
//! every lane of a warp reads its fragments of a 16x8x16 product. What is stated of
//! them here is which words of the operands each lane hands to the instruction, and
//! where it puts the results. `A` is row-major with two halves to a word; `B` is
//! row-major in the single-tile kernels and column-major in the others.
//!
//! [`gemm_f32`] multiplies without tensor cores, and its result is stated in full.

use vstd::prelude::*;

use crate::half::{pack_halves, packed};
use crate::kernels::attention::{exponentials, running_max};
use crate::kernels::reduce::range_sum;
use crate::scalar::{zero, Constant, Scalar};

verus! {

/// The words that a lane hands to the instruction.
#[derive(Clone, Copy, Debug, PartialEq, Eq, Structural)]
pub struct Operands {
    pub a0: u32,
    pub a1: u32,
    pub a2: u32,
    pub a3: u32,
    pub b0: u32,
    pub b1: u32,
}

/// The accumulators of a lane.
#[derive(Clone, Copy, Debug, PartialEq, Eq, Structural)]
pub struct Accumulators {
    pub c0: u32,
    pub c1: u32,
    pub c2: u32,
    pub c3: u32,
}

/// A thread's group of four lanes in its warp.
pub open spec fn group_of(tid: int) -> int {
    tid % 32 / 4
}

/// A thread's lane in its group.
pub open spec fn lane_of(tid: int) -> int {
    tid % 4
}

/// Which half of a block's rows a thread's warp has, of four warps in two rows.
pub open spec fn warp_row(tid: int) -> int {
    tid / 32 / 2
}

/// Which half of a block's columns a thread's warp has.
pub open spec fn warp_col(tid: int) -> int {
    tid / 32 % 2
}

/// A tile in shared memory: `rows` rows of `width` words, from a matrix whose rows are
/// `stride` words long, starting at `base`.
pub open spec fn staged(
    tile: Seq<u32>,
    x: Seq<u32>,
    base: int,
    stride: int,
    rows: int,
    width: int,
) -> bool {
    &&& tile.len() == rows * width
    &&& forall|r: int, c: int|
        0 <= r < rows && 0 <= c < width ==> #[trigger] tile[r * width + c] == x[base + r * stride
            + c]
}

proof fn lemma_tile_index(i: int, rows: int, width: int)
    requires
        0 <= i < rows * width,
        0 < width,
    ensures
        0 <= i / width < rows,
        0 <= i % width < width,
        (i / width) * width + i % width == i,
{
    vstd::arithmetic::div_mod::lemma_fundamental_div_mod(i, width);
    let q = i / width;
    let m = i % width;
    assert(0 <= m < width && 0 <= q) by (nonlinear_arith)
        requires
            0 <= i,
            0 < width,
            m == i % width,
            q == i / width,
    ;
    assert(width * q == q * width) by (nonlinear_arith);
    assert(q < rows) by (nonlinear_arith)
        requires
            q * width + m == i,
            0 <= m,
            i < rows * width,
            0 < width,
    ;
}

proof fn lemma_stride(r: int, rows: int, stride: int, c: int, width: int)
    requires
        0 <= r < rows,
        0 <= c < width,
        width <= stride,
    ensures
        0 <= r * stride,
        r * stride + c < (rows - 1) * stride + width,
{
    assert(0 <= r * stride && r * stride <= (rows - 1) * stride) by (nonlinear_arith)
        requires
            0 <= r < rows,
            0 <= stride,
    ;
}

/// Stages a tile: each thread copies `per_thread` words, thread by thread.
fn stage(
    x: &Vec<u32>,
    base: usize,
    stride: usize,
    rows: usize,
    width: usize,
    threads: usize,
    per_thread: usize,
) -> (tile: Vec<u32>)
    requires
        0 < width <= stride,
        0 < rows <= 32,
        width <= 8,
        threads <= 128,
        per_thread <= 4,
        threads * per_thread == rows * width,
        base + (rows - 1) * stride + width <= x@.len(),
    ensures
        staged(tile@, x@, base as int, stride as int, rows as int, width as int),
{
    let size: usize = x.len();
    let mut tile: Vec<u32> = Vec::new();
    assert(0 * per_thread == 0) by (nonlinear_arith);
    for tid in 0..threads
        invariant
            size == x@.len(),
            0 < width <= stride,
            0 < rows <= 32,
            width <= 8,
            threads <= 128,
            per_thread <= 4,
            threads * per_thread == rows * width,
            base + (rows - 1) * stride + width <= size,
            tile@.len() == tid * per_thread,
            forall|i: int|
                0 <= i < tile@.len() ==> #[trigger] tile@[i] == x@[base + (i / width as int)
                    * stride + i % width as int],
    {
        for i in 0..per_thread
            invariant
                size == x@.len(),
                0 < width <= stride,
                0 < rows <= 32,
                width <= 8,
                0 <= tid < threads <= 128,
                per_thread <= 4,
                threads * per_thread == rows * width,
                base + (rows - 1) * stride + width <= size,
                tile@.len() == tid * per_thread + i,
                forall|i: int|
                    0 <= i < tile@.len() ==> #[trigger] tile@[i] == x@[base + (i / width as int)
                        * stride + i % width as int],
        {
            proof {
                assert(tid * per_thread + i < rows * width) by (nonlinear_arith)
                    requires
                        0 <= tid < threads,
                        0 <= i < per_thread,
                        threads * per_thread == rows * width,
                ;
                assert(rows * width <= 256) by (nonlinear_arith)
                    requires
                        0 < rows <= 32,
                        0 < width <= 8,
                ;
                let k = tid * per_thread + i;
                lemma_tile_index(k, rows as int, width as int);
                lemma_stride(
                    k / width as int,
                    rows as int,
                    stride as int,
                    k % width as int,
                    width as int,
                );
            }
            let smem_idx: usize = tid * per_thread + i;
            let row: usize = smem_idx / width;
            let col: usize = smem_idx % width;
            tile.push(x[base + row * stride + col]);
        }
        assert((tid + 1) * per_thread == tid * per_thread + per_thread) by (nonlinear_arith);
    }
    assert forall|r: int, c: int| 0 <= r < rows && 0 <= c < width implies #[trigger] tile@[r * width
        + c] == x@[base + r * stride + c] by {
        assert(0 <= r * width && r * width + c < rows * width) by (nonlinear_arith)
            requires
                0 <= r < rows,
                0 <= c < width,
        ;
        assert(r * width + c == width * r + c) by (nonlinear_arith);
        vstd::arithmetic::div_mod::lemma_fundamental_div_mod_converse(
            r * width + c,
            width as int,
            r,
            c,
        );
    }
    tile
}

/// A matrix of whole tiles whose words can be numbered in 32 bits.
pub open spec fn operand_fits(len: int, rows: int, k_tiles: u32) -> bool {
    &&& rows * (k_tiles * 8) <= len
    &&& rows * (k_tiles * 8) <= u32::MAX
}

/// What the lanes of the single-tile kernel read from a whole staged tile.
pub open spec fn tile_operands(
    a: Seq<u32>,
    b: Seq<u32>,
    a_base: int,
    a_stride: int,
    b_base: int,
    tid: int,
) -> Operands {
    let (group, lane) = (group_of(tid), lane_of(tid));
    Operands {
        a0: a[a_base + group * a_stride + lane],
        a1: a[a_base + group * a_stride + lane + 4],
        a2: a[a_base + (group + 8) * a_stride + lane],
        a3: a[a_base + (group + 8) * a_stride + lane + 4],
        b0: b[b_base + group * 4 + lane],
        b1: b[b_base + (group + 8) * 4 + lane],
    }
}

/// The words that thread `tid` hands to the instruction for tile `t` of a product
/// `A(16xK) x B(Kx8)`, with `B` row-major.
pub fn test_multi_tile_gemm(a: &Vec<u32>, b: &Vec<u32>, k_tiles: u32, t: u32, tid: u32) -> (r:
    Operands)
    requires
        tid < 32,
        t < k_tiles,
        operand_fits(a@.len() as int, 16, k_tiles),
        operand_fits(b@.len() as int, 8, k_tiles),
    ensures
        r == tile_operands(a@, b@, t * 8, k_tiles * 8, t * 64, tid as int),
{
    let k_half: usize = k_tiles as usize * 8;
    let a_smem: Vec<u32> = stage(a, t as usize * 8, k_half, 16, 8, 32, 4);
    let b_smem: Vec<u32> = stage(b, t as usize * 64, 4, 16, 4, 32, 2);
    let group: usize = tid as usize / 4;
    let lane: usize = tid as usize % 4;
    let ghost (g, l) = (group as int, lane as int);
    proof {
        let (s, base) = (k_half as int, t * 8);
        assert(a_smem@[g * 8 + l] == a@[base + g * s + l]);
        assert(a_smem@[g * 8 + (l + 4)] == a@[base + g * s + (l + 4)]);
        assert(a_smem@[(g + 8) * 8 + l] == a@[base + (g + 8) * s + l]);
        assert(a_smem@[(g + 8) * 8 + (l + 4)] == a@[base + (g + 8) * s + (l + 4)]);
        assert(b_smem@[g * 4 + l] == b@[t * 64 + g * 4 + l]);
        assert(b_smem@[(g + 8) * 4 + l] == b@[t * 64 + (g + 8) * 4 + l]);
    }
    Operands {
        a0: a_smem[group * 8 + lane],
        a1: a_smem[group * 8 + lane + 4],
        a2: a_smem[(group + 8) * 8 + lane],
        a3: a_smem[(group + 8) * 8 + lane + 4],
        b0: b_smem[group * 4 + lane],
        b1: b_smem[(group + 8) * 4 + lane],
    }
}

/// The words that thread `tid` hands to the instruction for a product of one tile,
/// `A(16x16) x B(16x8)`, with the fragment layout of the instruction.
pub fn test_mma_mapped(a: &Vec<u32>, b: &Vec<u32>, tid: u32) -> (r: Operands)
    requires
        tid < 32,
        a@.len() >= 128,
        b@.len() >= 64,
    ensures
        r == tile_operands(a@, b@, 0, 8, 0, tid as int),
{
    test_multi_tile_gemm(a, b, 1, 0, tid)
}

/// The words that every thread hands to the instruction in the first tiled kernel: it
/// reads the first words of the staged tiles, whatever its lane, which is enough for
/// matrices whose elements are all the same.
pub fn test_tiled_gemm(a: &Vec<u32>, b: &Vec<u32>) -> (r: Operands)
    requires
        a@.len() >= 128,
        b@.len() >= 64,
    ensures
        r == (Operands { a0: a@[0], a1: a@[1], a2: a@[2], a3: a@[3], b0: b@[0], b1: b@[1] }),
{
    let a_smem: Vec<u32> = stage(a, 0, 8, 16, 8, 32, 4);
    let b_smem: Vec<u32> = stage(b, 0, 4, 16, 4, 32, 2);
    proof {
        lemma_first_row(a_smem@, a@, 8, 16, 8);
        lemma_first_row(b_smem@, b@, 4, 16, 4);
    }
    Operands {
        a0: a_smem[0],
        a1: a_smem[1],
        a2: a_smem[2],
        a3: a_smem[3],
        b0: b_smem[0],
        b1: b_smem[1],
    }
}

proof fn lemma_first_row(tile: Seq<u32>, x: Seq<u32>, stride: int, rows: int, width: int)
    requires
        staged(tile, x, 0, stride, rows, width),
        0 < rows,
    ensures
        forall|c: int| 0 <= c < width ==> #[trigger] tile[c] == x[c],
{
    assert forall|c: int| 0 <= c < width implies #[trigger] tile[c] == x[c] by {
        let r = 0int;
        assert(r * width == 0 && r * stride == 0) by (nonlinear_arith)
            requires
                r == 0,
        ;
        assert(tile[r * width + c] == x[0 + r * stride + c]);
    }
}

/// The operands of the instruction test: zero factors, so that the product is the
/// accumulator, which thread `tid` reads from its own four words.
pub fn test_mma_m16n8k16(c_vals: &Vec<u32>, tid: u32) -> (r: (Operands, Accumulators))
    requires
        tid < 32,
        c_vals@.len() >= 128,
    ensures
        r.0 == (Operands { a0: 0, a1: 0, a2: 0, a3: 0, b0: 0, b1: 0 }),
        r.1 == (Accumulators {
            c0: c_vals@[4 * tid as int],
            c1: c_vals@[4 * tid + 1],
            c2: c_vals@[4 * tid + 2],
            c3: c_vals@[4 * tid + 3],
        }),
{
    let base: usize = (tid * 4) as usize;
    (
        Operands { a0: 0, a1: 0, a2: 0, a3: 0, b0: 0, b1: 0 },
        Accumulators {
            c0: c_vals[base],
            c1: c_vals[base + 1],
            c2: c_vals[base + 2],
            c3: c_vals[base + 3],
        },
    )
}

/// Puts a thread's results into its own four words of the output.
pub fn store_by_thread(d: &mut Vec<u32>, tid: u32, c: &Accumulators)
    requires
        tid < 32,
        old(d)@.len() >= 128,
    ensures
        final(d)@ == old(d)@.update(4 * tid as int, c.c0).update(4 * tid + 1, c.c1).update(
            4 * tid + 2,
            c.c2,
        ).update(4 * tid + 3, c.c3),
{
    let base: usize = (tid * 4) as usize;
    d.set(base, c.c0);
    d.set(base + 1, c.c1);
    d.set(base + 2, c.c2);
    d.set(base + 3, c.c3);
}

/// The pairwise swap through shared memory: each of `n` threads leaves its number plus
/// one and picks up what its neighbour left, or zero where it has none.
pub open spec fn swapped(tid: int, n: int) -> u32 {
    let neighbour = if tid % 2 == 0 {
        tid + 1
    } else {
        tid - 1
    };
    if neighbour < n {
        (neighbour + 1) as u32
    } else {
        0
    }
}

/// Runs the pairwise swap over a block of `n` threads.
pub fn test_shared_memory(output: &mut Vec<u32>, n: u32, status: &mut u32)
    requires
        0 < n < u32::MAX,
        n <= old(output)@.len(),
    ensures
        final(output)@.len() == old(output)@.len(),
        forall|i: int|
            0 <= i < old(output)@.len() ==> #[trigger] final(output)@[i] == if i < n {
                swapped(i, n as int)
            } else {
                old(output)@[i]
            },
        *final(status) == 1,
{
    let ghost before = output@;
    let mut smem: Vec<u32> = Vec::new();
    for tid in 0..n
        invariant
            n < u32::MAX,
            smem@.len() == tid,
            forall|i: int| 0 <= i < tid ==> #[trigger] smem@[i] == i + 1,
    {
        smem.push(tid + 1);
    }
    for tid in 0..n
        invariant
            smem@.len() == n,
            n <= before.len(),
            forall|i: int| 0 <= i < n ==> #[trigger] smem@[i] == i + 1,
            output@.len() == before.len(),
            forall|i: int|
                0 <= i < before.len() ==> #[trigger] output@[i] == if i < tid {
                    swapped(i, n as int)
                } else {
                    before[i]
                },
    {
        let neighbor: u32 = tid ^ 1;
        assert(tid % 2 == 0 ==> neighbor == tid + 1) by (bit_vector)
            requires
                neighbor == tid ^ 1,
        ;
        assert(tid % 2 == 1 ==> neighbor == tid - 1) by (bit_vector)
            requires
                neighbor == tid ^ 1,
        ;
        let val: u32 = if neighbor < n {
            smem[neighbor as usize]
        } else {
            0
        };
        output.set(tid as usize, val);
    }
    *status = 1;
}

/// The words that thread `tid` of block `(block_m, block_n)` hands to the instruction
/// for tile `t`, with `B` column-major: rows `r` and `r + 8` of `A` and column `c` of
/// `B`, where the block has 32 rows and 16 columns and a warp 16 rows and 8 columns
/// of them.
pub open spec fn block_operands(
    a: Seq<u32>,
    b: Seq<u32>,
    block_m: int,
    block_n: int,
    k_half: int,
    t: int,
    tid: int,
) -> Operands {
    let r = block_m * 32 + warp_row(tid) * 16 + group_of(tid);
    let c = block_n * 16 + warp_col(tid) * 8 + group_of(tid);
    let k = t * 8 + lane_of(tid);
    Operands {
        a0: a[r * k_half + k],
        a1: a[r * k_half + k + 4],
        a2: a[(r + 8) * k_half + k],
        a3: a[(r + 8) * k_half + k + 4],
        b0: b[c * k_half + k],
        b1: b[c * k_half + k + 4],
    }
}

proof fn lemma_block_rows(block: int, size: int, r: int, k_half: int)
    requires
        0 <= block,
        0 <= r < size,
        0 <= k_half,
    ensures
        0 <= block * size * k_half,
        block * size * k_half + r * k_half == (block * size + r) * k_half,
        block * size * k_half + size * k_half == (block + 1) * size * k_half,
{
    assert(0 <= block * size * k_half && block * size * k_half + r * k_half == (block * size + r)
        * k_half && block * size * k_half + size * k_half == (block + 1) * size * k_half)
        by (nonlinear_arith)
        requires
            0 <= block,
            0 <= r < size,
            0 <= k_half,
    ;
}

fn read_block_fragments(
    a_smem: &Vec<u32>,
    b_smem: &Vec<u32>,
    tid: u32,
    Ghost(a): Ghost<Seq<u32>>,
    Ghost(b): Ghost<Seq<u32>>,
    Ghost(a_base): Ghost<int>,
    Ghost(b_base): Ghost<int>,
    Ghost(k_half): Ghost<int>,
) -> (r: Operands)
    requires
        tid < 128,
        staged(a_smem@, a, a_base, k_half, 32, 8),
        staged(b_smem@, b, b_base, k_half, 16, 8),
    ensures
        ({
            let ra = warp_row(tid as int) * 16 + group_of(tid as int);
            let cb = warp_col(tid as int) * 8 + group_of(tid as int);
            let l = lane_of(tid as int);
            r == (Operands {
                a0: a[a_base + ra * k_half + l],
                a1: a[a_base + ra * k_half + (l + 4)],
                a2: a[a_base + (ra + 8) * k_half + l],
                a3: a[a_base + (ra + 8) * k_half + (l + 4)],
                b0: b[b_base + cb * k_half + l],
                b1: b[b_base + cb * k_half + (l + 4)],
            })
        }),
{
    let warp_id: usize = tid as usize / 32;
    let local_tid: usize = tid as usize % 32;
    let group: usize = local_tid / 4;
    let lane: usize = local_tid % 4;
    let warp_m: usize = warp_id / 2;
    let warp_n: usize = warp_id % 2;
    let a_row: usize = warp_m * 16 + group;
    let b_col: usize = warp_n * 8 + group;
    proof {
        let (ra, cb, l) = (a_row as int, b_col as int, lane as int);
        assert(ra + 8 < 32 && cb < 16 && l < 4);
        assert(l == lane_of(tid as int));
        assert(a_smem@[ra * 8 + l] == a[a_base + ra * k_half + l]);
        assert(a_smem@[ra * 8 + (l + 4)] == a[a_base + ra * k_half + (l + 4)]);
        assert(a_smem@[(ra + 8) * 8 + l] == a[a_base + (ra + 8) * k_half + l]);
        assert(a_smem@[(ra + 8) * 8 + (l + 4)] == a[a_base + (ra + 8) * k_half + (l + 4)]);
        assert(b_smem@[cb * 8 + l] == b[b_base + cb * k_half + l]);
        assert(b_smem@[cb * 8 + (l + 4)] == b[b_base + cb * k_half + (l + 4)]);
    }
    Operands {
        a0: a_smem[a_row * 8 + lane],
        a1: a_smem[a_row * 8 + lane + 4],
        a2: a_smem[(a_row + 8) * 8 + lane],
        a3: a_smem[(a_row + 8) * 8 + lane + 4],
        b0: b_smem[b_col * 8 + lane],
        b1: b_smem[b_col * 8 + lane + 4],
    }
}

/// The words that thread `tid` of block `(block_m, block_n)` hands to the instruction
/// for tile `t` of a product of any number of blocks.
pub fn full_gemm(
    a: &Vec<u32>,
    b: &Vec<u32>,
    k_tiles: u32,
    block_m: u32,
    block_n: u32,
    t: u32,
    tid: u32,
) -> (r: Operands)
    requires
        tid < 128,
        t < k_tiles,
        operand_fits(a@.len() as int, (block_m + 1) * 32, k_tiles),
        operand_fits(b@.len() as int, (block_n + 1) * 16, k_tiles),
    ensures
        r == block_operands(
            a@,
            b@,
            block_m as int,
            block_n as int,
            k_tiles * 8,
            t as int,
            tid as int,
        ),
{
    let ghost kh = k_tiles * 8;
    proof {
        lemma_block_rows(block_m as int, 32, 0, kh);
        lemma_block_rows(block_n as int, 16, 0, kh);
        lemma_last_row(block_m as int, 32, kh, t * 8);
        lemma_last_row(block_n as int, 16, kh, t * 8);
        assert(block_m * 32 <= block_m * 32 * kh && block_n * 16 <= block_n * 16 * kh)
            by (nonlinear_arith)
            requires
                0 <= block_m,
                0 <= block_n,
                kh >= 8,
        ;
        assert(kh <= (block_m + 1) * 32 * kh) by (nonlinear_arith)
            requires
                0 <= block_m,
                kh >= 8,
        ;
    }
    let k_half: usize = k_tiles as usize * 8;
    let a_base: usize = block_m as usize * 32 * k_half + t as usize * 8;
    let b_base: usize = block_n as usize * 16 * k_half + t as usize * 8;
    let a_smem: Vec<u32> = stage(a, a_base, k_half, 32, 8, 128, 2);
    let b_smem: Vec<u32> = stage(b, b_base, k_half, 16, 8, 128, 1);
    proof {
        let ra = warp_row(tid as int) * 16 + group_of(tid as int);
        let cb = warp_col(tid as int) * 8 + group_of(tid as int);
        lemma_block_rows(block_m as int, 32, ra, kh);
        lemma_block_rows(block_m as int, 32, ra + 8, kh);
        lemma_block_rows(block_n as int, 16, cb, kh);
    }
    read_block_fragments(
        &a_smem,
        &b_smem,
        tid,
        Ghost(a@),
        Ghost(b@),
        Ghost(a_base as int),
        Ghost(b_base as int),
        Ghost(kh),
    )
}

proof fn lemma_last_row(block: int, size: int, k_half: int, k: int)
    requires
        0 <= block,
        0 < size,
        0 <= k,
        k + 8 <= k_half,
    ensures
        block * size * k_half + k + (size - 1) * k_half + 8 <= (block + 1) * size * k_half,
{
    lemma_block_rows(block, size, 0, k_half);
    assert((size - 1) * k_half + k_half == size * k_half) by (nonlinear_arith);
}

/// The words that thread `tid` hands to the instruction in the kernel for one block of
/// 16 columns and 32 rows.
pub fn multi_warp_gemm(a: &Vec<u32>, b: &Vec<u32>, k_tiles: u32, t: u32, tid: u32) -> (r: Operands)
    requires
        tid < 128,
        t < k_tiles,
        operand_fits(a@.len() as int, 32, k_tiles),
        operand_fits(b@.len() as int, 16, k_tiles),
    ensures
        r == block_operands(a@, b@, 0, 0, k_tiles * 8, t as int, tid as int),
{
    full_gemm(a, b, k_tiles, 0, 0, t, tid)
}

/// The words that thread `tid` of block `block_m` hands to the instruction in the kernel
/// for 16 columns and any number of blocks of 32 rows.
pub fn multi_block_gemm(
    a: &Vec<u32>,
    b: &Vec<u32>,
    k_tiles: u32,
    block_m: u32,
    t: u32,
    tid: u32,
) -> (r: Operands)
    requires
        tid < 128,
        t < k_tiles,
        operand_fits(a@.len() as int, (block_m + 1) * 32, k_tiles),
        operand_fits(b@.len() as int, 16, k_tiles),
    ensures
        r == block_operands(a@, b@, block_m as int, 0, k_tiles * 8, t as int, tid as int),
{
    full_gemm(a, b, k_tiles, block_m, 0, t, tid)
}

/// Where a thread's results go in the row-major output: its first two in row `r`, the
/// others in row `r + 8`, in columns `c` and `c + 1`.
pub open spec fn result_cell(block_m: int, block_n: int, tid: int, reg: int, n_cols: int) -> int {
    let r = block_m * 32 + warp_row(tid) * 16 + group_of(tid) + 8 * (reg / 2);
    let c = block_n * 16 + warp_col(tid) * 8 + lane_of(tid) * 2 + reg % 2;
    r * n_cols + c
}

proof fn lemma_cell_bound(r: int, rows: int, c: int, n_cols: int)
    requires
        0 <= r < rows,
        0 <= c < n_cols,
    ensures
        0 <= r * n_cols,
        r * n_cols + c < rows * n_cols,
{
    assert(0 <= r * n_cols && r * n_cols + n_cols <= rows * n_cols) by (nonlinear_arith)
        requires
            0 <= r < rows,
            0 <= n_cols,
    ;
}

/// Puts a thread's results into the output.
pub fn store_results(
    d: &mut Vec<u32>,
    block_m: u32,
    block_n: u32,
    tid: u32,
    n_cols: u32,
    c: &Accumulators,
)
    requires
        tid < 128,
        (block_n + 1) * 16 <= n_cols,
        (block_m + 1) * 32 * n_cols <= old(d)@.len(),
        (block_m + 1) * 32 * n_cols <= u32::MAX,
    ensures
        ({
            let (m, n, i, w) = (block_m as int, block_n as int, tid as int, n_cols as int);
            final(d)@ == old(d)@.update(result_cell(m, n, i, 0, w), c.c0).update(
                result_cell(m, n, i, 1, w),
                c.c1,
            ).update(result_cell(m, n, i, 2, w), c.c2).update(result_cell(m, n, i, 3, w), c.c3)
        }),
{
    let _size: usize = d.len();
    let warp_id: usize = tid as usize / 32;
    let local_tid: usize = tid as usize % 32;
    let group: usize = local_tid / 4;
    let lane: usize = local_tid % 4;
    let warp_m: usize = warp_id / 2;
    let warp_n: usize = warp_id % 2;
    let width: usize = n_cols as usize;
    proof {
        let rows = (block_m + 1) * 32;
        assert(rows <= rows * n_cols) by (nonlinear_arith)
            requires
                0 <= rows,
                n_cols >= 1,
        ;
        let r0 = block_m * 32 + warp_m * 16 + group;
        let c0 = block_n * 16 + warp_n * 8 + lane * 2;
        lemma_cell_bound(r0, rows, c0, n_cols as int);
        lemma_cell_bound(r0, rows, c0 + 1, n_cols as int);
        lemma_cell_bound(r0 + 8, rows, c0, n_cols as int);
        lemma_cell_bound(r0 + 8, rows, c0 + 1, n_cols as int);
        assert(group == group_of(tid as int) && lane == lane_of(tid as int));
    }
    let r0: usize = block_m as usize * 32 + warp_m * 16 + group;
    let r2: usize = r0 + 8;
    let c0: usize = block_n as usize * 16 + warp_n * 8 + lane * 2;
    let c1: usize = c0 + 1;
    d.set(r0 * width + c0, c.c0);
    d.set(r0 * width + c1, c.c1);
    d.set(r2 * width + c0, c.c2);
    d.set(r2 * width + c1, c.c3);
}

/// Every element of a block's 32x16 tile is the result of one thread's one register.
pub proof fn every_result_has_its_cell(row: int, col: int) -> (at: (int, int))
    requires
        0 <= row < 32,
        0 <= col < 16,
    ensures
        0 <= at.0 < 128,
        0 <= at.1 < 4,
        result_cell(0, 0, at.0, at.1, 16) == row * 16 + col,
{
    let warp = (row / 16) * 2 + col / 8;
    let group = row % 8;
    let lane = col % 8 / 2;
    let reg = (row % 16 / 8) * 2 + col % 2;
    let tid = warp * 32 + group * 4 + lane;
    assert(tid / 32 == warp && tid % 32 == group * 4 + lane);
    (tid, reg)
}

/// No two threads or registers of a block write the same element.
pub proof fn results_do_not_collide(tid1: int, reg1: int, tid2: int, reg2: int, n_cols: int)
    requires
        0 <= tid1 < 128,
        0 <= tid2 < 128,
        0 <= reg1 < 4,
        0 <= reg2 < 4,
        n_cols >= 16,
        result_cell(0, 0, tid1, reg1, n_cols) == result_cell(0, 0, tid2, reg2, n_cols),
    ensures
        tid1 == tid2,
        reg1 == reg2,
{
    let r1 = warp_row(tid1) * 16 + group_of(tid1) + 8 * (reg1 / 2);
    let c1 = warp_col(tid1) * 8 + lane_of(tid1) * 2 + reg1 % 2;
    let r2 = warp_row(tid2) * 16 + group_of(tid2) + 8 * (reg2 / 2);
    let c2 = warp_col(tid2) * 8 + lane_of(tid2) * 2 + reg2 % 2;
    assert(r1 * n_cols == n_cols * r1 && r2 * n_cols == n_cols * r2) by (nonlinear_arith);
    vstd::arithmetic::div_mod::lemma_fundamental_div_mod_converse(
        r1 * n_cols + c1,
        n_cols,
        r1,
        c1,
    );
    vstd::arithmetic::div_mod::lemma_fundamental_div_mod_converse(
        r2 * n_cols + c2,
        n_cols,
        r2,
        c2,
    );
    assert(r1 == r2 && c1 == c2);
    assert(warp_row(tid1) == warp_row(tid2));
    assert(group_of(tid1) == group_of(tid2) && reg1 / 2 == reg2 / 2);
    assert(warp_col(tid1) == warp_col(tid2));
    assert(lane_of(tid1) == lane_of(tid2) && reg1 % 2 == reg2 % 2);
    assert(tid1 == (warp_row(tid1) * 2 + warp_col(tid1)) * 32 + group_of(tid1) * 4 + lane_of(
        tid1,
    ));
    assert(tid2 == (warp_row(tid2) * 2 + warp_col(tid2)) * 32 + group_of(tid2) * 4 + lane_of(
        tid2,
    ));
}

/// The word of two halves for the elements `2 * kp` and `2 * kp + 1` of row `r`, given
/// each element's conversion.
pub open spec fn converted_word(halves: Seq<u32>, r: int, k_full: int, kp: int) -> u32 {
    packed(
        halves[r * k_full + 2 * kp] as int % 0x1_0000,
        halves[r * k_full + 2 * kp + 1] as int % 0x1_0000,
    ) as u32
}

/// What a matrix of single elements is when each row's elements are converted and packed
/// in pairs.
pub open spec fn converted_matrix(halves: Seq<u32>, rows: nat, k_full: int) -> Seq<u32> {
    Seq::new(
        (rows * (k_full / 2)) as nat,
        |i: int| converted_word(halves, i / (k_full / 2), k_full, i % (k_full / 2)),
    )
}

/// The words that thread `tid` hands to the instruction when `A` is given in single
/// precision and converted tile by tile: `halves` holds what the conversion
/// instruction makes of each element.
pub fn full_gemm_f32in(
    halves: &Vec<u32>,
    b: &Vec<u32>,
    k_tiles: u32,
    block_m: u32,
    block_n: u32,
    t: u32,
    tid: u32,
) -> (r: Operands)
    requires
        tid < 128,
        t < k_tiles,
        (block_m + 1) * 32 * (k_tiles * 16) <= halves@.len(),
        (block_m + 1) * 32 * (k_tiles * 16) <= u32::MAX,
        operand_fits(b@.len() as int, (block_n + 1) * 16, k_tiles),
    ensures
        ({
            let rr = block_m * 32 + warp_row(tid as int) * 16 + group_of(tid as int);
            let c = block_n * 16 + warp_col(tid as int) * 8 + group_of(tid as int);
            let k = t * 8 + lane_of(tid as int);
            let k_full = k_tiles * 16;
            r == (Operands {
                a0: converted_word(halves@, rr, k_full, k),
                a1: converted_word(halves@, rr, k_full, k + 4),
                a2: converted_word(halves@, rr + 8, k_full, k),
                a3: converted_word(halves@, rr + 8, k_full, k + 4),
                b0: b@[c * (k_tiles * 8) + k],
                b1: b@[c * (k_tiles * 8) + k + 4],
            })
        }),
{
    let ghost kh = k_tiles * 8;
    let ghost kf = k_tiles * 16;
    proof {
        lemma_block_rows(block_m as int, 32, 0, kf);
        lemma_block_rows(block_n as int, 16, 0, kh);
        lemma_last_row(block_n as int, 16, kh, t * 8);
        assert(block_m * 32 <= block_m * 32 * kf && block_n * 16 <= block_n * 16 * kh)
            by (nonlinear_arith)
            requires
                0 <= block_m,
                0 <= block_n,
                kh >= 8,
                kf >= 16,
        ;
        assert(kf <= (block_m + 1) * 32 * kf) by (nonlinear_arith)
            requires
                0 <= block_m,
                kf >= 16,
        ;
    }
    let k_half: usize = k_tiles as usize * 8;
    let k_full: usize = k_tiles as usize * 16;
    let base: usize = block_m as usize * 32 * k_full;
    let size: usize = halves.len();
    let mut a_smem: Vec<u32> = Vec::new();
    for i in 0..256usize
        invariant
            size == halves@.len(),
            t < k_tiles,
            k_full == kf,
            kf == k_tiles * 16,
            base == block_m * 32 * kf,
            base + 32 * kf <= size,
            a_smem@.len() == i,
            forall|j: int|
                0 <= j < i ==> #[trigger] a_smem@[j] == converted_word(
                    halves@,
                    block_m * 32 + j / 8,
                    kf,
                    t * 8 + j % 8,
                ),
    {
        let row: usize = i / 8;
        let col_packed: usize = i % 8;
        proof {
            lemma_block_rows(block_m as int, 32, row as int, kf);
            lemma_stride(row as int, 32, kf, t * 16 + col_packed * 2 + 1, kf);
            assert(31 * kf + kf == 32 * kf);
        }
        let k_base: usize = t as usize * 16 + col_packed * 2;
        let h0: u32 = halves[base + row * k_full + k_base];
        let h1: u32 = halves[base + row * k_full + k_base + 1];
        a_smem.push(pack_halves(h0, h1));
    }
    let b_base: usize = block_n as usize * 16 * k_half + t as usize * 8;
    let b_smem: Vec<u32> = stage(b, b_base, k_half, 16, 8, 128, 1);
    let warp_id: usize = tid as usize / 32;
    let local_tid: usize = tid as usize % 32;
    let group: usize = local_tid / 4;
    let lane: usize = local_tid % 4;
    let a_row: usize = warp_id / 2 * 16 + group;
    let b_col: usize = warp_id % 2 * 8 + group;
    proof {
        let (ra, cb, l) = (a_row as int, b_col as int, lane as int);
        assert(ra + 8 < 32 && cb < 16 && l < 4);
        assert(l == lane_of(tid as int));
        assert((ra * 8 + l) / 8 == ra && (ra * 8 + l) % 8 == l);
        assert((ra * 8 + l + 4) / 8 == ra && (ra * 8 + l + 4) % 8 == l + 4);
        assert(((ra + 8) * 8 + l) / 8 == ra + 8 && ((ra + 8) * 8 + l) % 8 == l);
        assert(((ra + 8) * 8 + l + 4) / 8 == ra + 8 && ((ra + 8) * 8 + l + 4) % 8 == l + 4);
        assert(b_smem@[cb * 8 + l] == b@[b_base + cb * kh + l]);
        assert(b_smem@[cb * 8 + (l + 4)] == b@[b_base + cb * kh + (l + 4)]);
        lemma_block_rows(block_n as int, 16, cb, kh);
    }
    Operands {
        a0: a_smem[a_row * 8 + lane],
        a1: a_smem[a_row * 8 + lane + 4],
        a2: a_smem[(a_row + 8) * 8 + lane],
        a3: a_smem[(a_row + 8) * 8 + lane + 4],
        b0: b_smem[b_col * 8 + lane],
        b1: b_smem[b_col * 8 + lane + 4],
    }
}

/// Converting the elements tile by tile hands the instruction the same words as packing
/// the whole matrix first.
pub proof fn tilewise_conversion_matches_packing(
    halves: Seq<u32>,
    rows: nat,
    k_tiles: u32,
    r: int,
    k: int,
)
    requires
        k_tiles > 0,
        0 <= r < rows,
        0 <= k < k_tiles * 8,
    ensures
        ({
            let k_full = k_tiles * 16;
            let k_half = k_tiles * 8;
            &&& 0 <= r * k_half + k < converted_matrix(halves, rows, k_full).len()
            &&& converted_matrix(halves, rows, k_full)[r * k_half + k] == converted_word(
                halves,
                r,
                k_full,
                k,
            )
        }),
{
    let k_half = k_tiles * 8;
    assert(k_tiles * 16 / 2 == k_half);
    lemma_cell_bound(r, rows as int, k, k_half);
    assert(r * k_half + k == k_half * r + k) by (nonlinear_arith);
    vstd::arithmetic::div_mod::lemma_fundamental_div_mod_converse(r * k_half + k, k_half, r, k);
}

/// Where the lanes of the single-tile kernel put their results in the matrix that the
/// softmax phase reads.
pub fn scatter_results(d: &mut Vec<u32>, tid: u32, c: &Accumulators)
    requires
        tid < 32,
        old(d)@.len() >= 128,
    ensures
        ({
            let (g, l) = (group_of(tid as int), lane_of(tid as int));
            let cell = |row: int| row * 8 + g;
            final(d)@ == old(d)@.update(cell(2 * l), c.c0).update(cell(2 * l + 1), c.c1).update(
                cell(2 * l + 8),
                c.c2,
            ).update(cell(2 * l + 9), c.c3)
        }),
{
    let group: usize = tid as usize / 4;
    let lane: usize = tid as usize % 4;
    let row: usize = lane * 16 + group;
    assert(group == group_of(tid as int) && lane == lane_of(tid as int));
    assert(row < 64);
    d.set(row, c.c0);
    d.set(row + 8, c.c1);
    d.set(row + 64, c.c2);
    d.set(row + 72, c.c3);
}

/// In the single-tile kernel every word of the staged tile of `A` is handed to the
/// instruction by one lane's one register: registers 0 to 3 of a lane are for rows
/// `group` and `group + 8` and words `lane` and `lane + 4`.
pub proof fn fragments_cover_the_tile(row: int, word: int) -> (at: (int, int))
    requires
        0 <= row < 16,
        0 <= word < 8,
    ensures
        0 <= at.0 < 32,
        0 <= at.1 < 4,
        group_of(at.0) + 8 * (at.1 / 2) == row,
        lane_of(at.0) + 4 * (at.1 % 2) == word,
        forall|tid: int, reg: int|
            0 <= tid < 32 && 0 <= reg < 4 && #[trigger] group_of(tid) + 8 * #[trigger] (reg / 2)
                == row && lane_of(tid) + 4 * (reg % 2) == word ==> tid == at.0 && reg == at.1,
{
    let tid = row % 8 * 4 + word % 4;
    let reg = row / 8 * 2 + word / 4;
    assert(group_of(tid) == row % 8 && lane_of(tid) == word % 4);
    (tid, reg)
}

/// The softmax of a row of eight elements.
pub open spec fn row_softmax<S: Scalar>(x: Seq<S>) -> Seq<S> {
    let e = exponentials(x, running_max(x, x.len()));
    Seq::new(x.len(), |j: int| S::quotient(e[j], range_sum(e, 0, e.len())))
}

/// The softmax phase of the product-and-softmax kernel: thread `tid` handles row `tid`
/// of the 16x8 product, and threads beyond it do nothing.
pub fn test_gemm_softmax_pipeline<S: Scalar>(d: &Vec<S>, output: &mut Vec<S>, tid: u32)
    requires
        d@.len() >= 128,
        old(output)@.len() >= 128,
    ensures
        final(output)@.len() == old(output)@.len(),
        forall|i: int|
            0 <= i < old(output)@.len() ==> #[trigger] final(output)@[i] == if tid < 16 && 8 * tid
                <= i < 8 * tid + 8 {
                row_softmax(d@.subrange(8 * tid as int, 8 * tid + 8))[i - 8 * tid]
            } else {
                old(output)@[i]
            },
{
    if tid >= 16 {
        return;
    }
    let ghost before = output@;
    let base: usize = (tid * 8) as usize;
    let ghost x = d@.subrange(base as int, base + 8);
    let mut max_val = d[base].dup();
    for j in 1..8usize
        invariant
            base + 8 <= 128 <= d@.len(),
            x == d@.subrange(base as int, base + 8),
            max_val == running_max(x, j as nat),
    {
        if d[base + j].exceeds(&max_val) {
            max_val = d[base + j].dup();
        }
    }
    let ghost e = exponentials(x, running_max(x, 8));
    let mut sum = S::constant(Constant::Zero);
    let mut exps: Vec<S> = Vec::new();
    for j in 0..8usize
        invariant
            base + 8 <= 128 <= d@.len(),
            x == d@.subrange(base as int, base + 8),
            max_val == running_max(x, 8),
            e == exponentials(x, running_max(x, 8)),
            exps@ == e.take(j as int),
            sum == range_sum(e, 0, j as nat),
    {
        let v = d[base + j].minus(&max_val).exp();
        sum = sum.plus(&v);
        exps.push(v);
    }
    for j in 0..8usize
        invariant
            base == 8 * tid,
            base + 8 <= 128 <= before.len(),
            x.len() == 8,
            e == exponentials(x, running_max(x, 8)),
            exps@ == e,
            sum == range_sum(e, 0, 8),
            output@.len() == before.len(),
            forall|i: int|
                0 <= i < before.len() ==> #[trigger] output@[i] == if base <= i < base + j {
                    row_softmax(x)[i - base]
                } else {
                    before[i]
                },
    {
        let val = exps[j].over(&sum);
        output.set(base + j, val);
    }
}

/// The sum of the first `n` products, each added with one rounding.
pub open spec fn fused_dot<S: Scalar>(a: Seq<S>, b: Seq<S>, n: nat) -> S
    decreases n,
{
    if n == 0 {
        zero()
    } else {
        S::fused_value(a[n - 1], b[n - 1], fused_dot(a, b, (n - 1) as nat))
    }
}

/// Element `(r, c)` of a product of a row-major and a column-major matrix.
pub open spec fn product_element<S: Scalar>(a: Seq<S>, b: Seq<S>, k: nat, r: int, c: int) -> S {
    fused_dot(a.subrange(r * k, r * k + k), b.subrange(c * k, c * k + k), k)
}

/// A tile of 16 columns of a matrix with rows of `k` elements, padded with zeros
/// beyond the row's end.
pub open spec fn padded_tile<S: Scalar>(
    tile: Seq<S>,
    x: Seq<S>,
    first: int,
    rows: int,
    k: int,
    start: int,
) -> bool {
    &&& tile.len() == rows * 16
    &&& forall|r: int, j: int|
        0 <= r < rows && 0 <= j < 16 && start + j < k ==> #[trigger] tile[r * 16 + j] == x[(first + r)
            * k + (start + j)]
}

fn load_padded<S: Scalar>(x: &Vec<S>, first: usize, rows: usize, k: usize, start: usize) -> (tile:
    Vec<S>)
    requires
        0 < rows <= 32,
        start < k,
        k + 16 <= u32::MAX,
        first + rows <= u32::MAX,
        (first + rows) * k <= x@.len(),
    ensures
        padded_tile(tile@, x@, first as int, rows as int, k as int, start as int),
{
    let size: usize = x.len();
    let mut tile: Vec<S> = Vec::new();
    for flat in 0..rows * 16
        invariant
            size == x@.len(),
            0 < rows <= 32,
            start < k,
            k + 16 <= u32::MAX,
            first + rows <= u32::MAX,
            (first + rows) * k <= size,
            tile@.len() == flat,
            forall|r: int, j: int|
                0 <= r < rows && 0 <= j < 16 && start + j < k && r * 16 + j < flat
                    ==> #[trigger] tile@[r * 16 + j] == x@[(first + r) * k + (start + j)],
    {
        let row: usize = flat / 16;
        let col: usize = flat % 16;
        let k_idx: usize = start + col;
        let ghost before = tile@;
        if k_idx < k {
            proof {
                lemma_cell_bound(first + row, first + rows, k_idx as int, k as int);
            }
            tile.push(x[(first + row) * k + k_idx].dup());
        } else {
            tile.push(S::constant(Constant::Zero));
        }
        assert forall|r: int, j: int|
            0 <= r < rows && 0 <= j < 16 && start + j < k && r * 16 + j < flat + 1
            implies #[trigger] tile@[r * 16 + j] == x@[(first + r) * k + (start + j)] by {
            if r * 16 + j == flat {
                assert(r == row && j == col);
            } else {
                assert(tile@[r * 16 + j] == before[r * 16 + j]);
            }
        }
    }
    tile
}

/// How many of the products of an element a thread has added after `t` tiles.
pub open spec fn products_done(t: int, k: int) -> int {
    if 16 * t < k {
        16 * t
    } else {
        k
    }
}

/// Multiplies a row-major by a column-major matrix in single precision: block
/// `(block_m, block_n)` computes 32 rows and 16 columns, each of its 128 threads two
/// rows and two columns of them, over tiles of 16 products.
pub fn gemm_f32<S: Scalar>(
    a: &Vec<S>,
    b: &Vec<S>,
    d: &mut Vec<S>,
    k_dim: u32,
    n_cols: u32,
    block_m: u32,
    block_n: u32,
    status: &mut u32,
)
    requires
        k_dim + 16 <= u32::MAX,
        (block_n + 1) * 16 <= n_cols,
        (block_m + 1) * 32 * k_dim <= a@.len(),
        (block_m + 1) * 32 * k_dim <= u32::MAX,
        (block_m + 1) * 32 <= u32::MAX,
        n_cols * k_dim <= b@.len(),
        n_cols * k_dim <= u32::MAX,
        (block_m + 1) * 32 * n_cols <= old(d)@.len(),
        (block_m + 1) * 32 * n_cols <= u32::MAX,
    ensures
        final(d)@.len() == old(d)@.len(),
        forall|x: int|
            0 <= x < old(d)@.len() ==> #[trigger] final(d)@[x] == {
                let r = x / n_cols as int;
                let c = x % n_cols as int;
                if block_m * 32 <= r < block_m * 32 + 32 && block_n * 16 <= c < block_n * 16 + 16 {
                    product_element(a@, b@, k_dim as nat, r, c)
                } else {
                    old(d)@[x]
                }
            },
        *final(status) == crate::kernels::elementwise::counted(*old(status), 0),
{
    let ghost before = d@;
    let k: usize = k_dim as usize;
    let width: usize = n_cols as usize;
    let m0: usize = block_m as usize * 32;
    let n0: usize = block_n as usize * 16;
    proof {
        assert((n0 + 16) * k <= n_cols * k_dim) by (nonlinear_arith)
            requires
                0 <= n0 + 16 <= n_cols,
                0 <= k,
                k == k_dim,
        ;
    }
    let mut acc: Vec<S> = Vec::new();
    for i in 0..512usize
        invariant
            acc@.len() == i,
            forall|j: int|
                0 <= j < i ==> #[trigger] acc@[j] == fused_element(
                    a@,
                    b@,
                    k as nat,
                    m0 as int,
                    n0 as int,
                    j,
                    0,
                ),
    {
        acc.push(S::constant(Constant::Zero));
    }
    let k_tiles: usize = (k + 15) / 16;
    for t in 0..k_tiles
        invariant
            k + 16 <= u32::MAX,
            k_tiles == (k + 15) / 16,
            m0 + 32 <= u32::MAX,
            n0 + 16 <= u32::MAX,
            (m0 + 32) * k <= a@.len(),
            (n0 + 16) * k <= b@.len(),
            acc@.len() == 512,
            forall|j: int|
                0 <= j < 512 ==> #[trigger] acc@[j] == fused_element(
                    a@,
                    b@,
                    k as nat,
                    m0 as int,
                    n0 as int,
                    j,
                    products_done(t as int, k as int) as nat,
                ),
    {
        let start: usize = t * 16;
        let a_smem: Vec<S> = load_padded(a, m0, 32, k, start);
        let b_smem: Vec<S> = load_padded(b, n0, 16, k, start);
        let tile_k: usize = if start + 16 <= k {
            16
        } else {
            k - start
        };
        for tid in 0..128usize
            invariant
                k + 16 <= u32::MAX,
                start == 16 * t,
                start < k,
                tile_k == if start + 16 <= k {
                    16
                } else {
                    k - start
                },
                (m0 + 32) * k <= a@.len(),
                (n0 + 16) * k <= b@.len(),
                padded_tile(a_smem@, a@, m0 as int, 32, k as int, start as int),
                padded_tile(b_smem@, b@, n0 as int, 16, k as int, start as int),
                acc@.len() == 512,
                forall|j: int|
                    0 <= j < 512 ==> #[trigger] acc@[j] == fused_element(
                        a@,
                        b@,
                        k as nat,
                        m0 as int,
                        n0 as int,
                        j,
                        if j < 4 * tid {
                            (start + tile_k) as nat
                        } else {
                            start as nat
                        },
                    ),
        {
            let row_pair: usize = tid / 8;
            let col_pair: usize = tid % 8;
            for q in 0..4usize
                invariant
                    0 <= tid < 128,
                    row_pair == tid / 8,
                    col_pair == tid % 8,
                    k + 16 <= u32::MAX,
                    start < k,
                    tile_k <= 16,
                    start + tile_k <= k,
                    (m0 + 32) * k <= a@.len(),
                    (n0 + 16) * k <= b@.len(),
                    padded_tile(a_smem@, a@, m0 as int, 32, k as int, start as int),
                    padded_tile(b_smem@, b@, n0 as int, 16, k as int, start as int),
                    acc@.len() == 512,
                    forall|j: int|
                        0 <= j < 512 ==> #[trigger] acc@[j] == fused_element(
                            a@,
                            b@,
                            k as nat,
                            m0 as int,
                            n0 as int,
                            j,
                            if j < 4 * tid + q {
                                (start + tile_k) as nat
                            } else {
                                start as nat
                            },
                        ),
            {
                let r: usize = row_pair * 2 + q / 2;
                let c: usize = col_pair * 2 + q % 2;
                let slot: usize = tid * 4 + q;
                let ghost ar = a@.subrange((m0 + r) * k, (m0 + r) * k + k);
                let ghost bc = b@.subrange((n0 + c) * k, (n0 + c) * k + k);
                proof {
                    assert(r < 32 && c < 16);
                    assert(slot_row(slot as int) == r && slot_col(slot as int) == c);
                    lemma_row_end(m0 + r, m0 + 32, k as int);
                    lemma_row_end(n0 + c, n0 + 16, k as int);
                }
                let mut x = acc[slot].dup();
                for j in 0..tile_k
                    invariant
                        r < 32,
                        c < 16,
                        k + 16 <= u32::MAX,
                        start + tile_k <= k,
                        tile_k <= 16,
                        0 <= (m0 + r) * k,
                        (m0 + r) * k + k <= a@.len(),
                        0 <= (n0 + c) * k,
                        (n0 + c) * k + k <= b@.len(),
                        ar == a@.subrange((m0 + r) * k, (m0 + r) * k + k),
                        bc == b@.subrange((n0 + c) * k, (n0 + c) * k + k),
                        padded_tile(a_smem@, a@, m0 as int, 32, k as int, start as int),
                        padded_tile(b_smem@, b@, n0 as int, 16, k as int, start as int),
                        x == fused_dot(ar, bc, (start + j) as nat),
                {
                    proof {
                        assert(a_smem@[r * 16 + j] == a@[(m0 + r) * k + (start + j)]);
                        assert(b_smem@[c * 16 + j] == b@[(n0 + c) * k + (start + j)]);
                    }
                    x = a_smem[r * 16 + j].fused(&b_smem[c * 16 + j], &x);
                }
                acc.set(slot, x);
            }
        }
    }
    let size: usize = d.len();
    for slot in 0..512usize
        invariant
            size == before.len(),
            acc@.len() == 512,
            n0 + 16 <= width,
            (m0 + 32) * width <= size,
            m0 + 32 <= u32::MAX,
            forall|j: int|
                0 <= j < 512 ==> #[trigger] acc@[j] == fused_element(
                    a@,
                    b@,
                    k as nat,
                    m0 as int,
                    n0 as int,
                    j,
                    k as nat,
                ),
            stored(
                d@,
                before,
                a@,
                b@,
                k as nat,
                m0 as int,
                n0 as int,
                width as int,
                slot as int,
            ),
    {
        let tid: usize = slot / 4;
        let q: usize = slot % 4;
        let r: usize = tid / 8 * 2 + q / 2;
        let c: usize = tid % 8 * 2 + q % 2;
        let ghost mid = d@;
        proof {
            lemma_cell_bound(m0 + r, m0 + 32, n0 + c, width as int);
            lemma_slots(r as int, c as int);
            assert(slot_row(slot as int) == r && slot_col(slot as int) == c);
        }
        let at: usize = (m0 + r) * width + (n0 + c);
        let val = acc[slot].dup();
        d.set(at, val);
        proof {
            lemma_store_step(
                mid,
                before,
                a@,
                b@,
                k as nat,
                m0 as int,
                n0 as int,
                width as int,
                slot as int,
            );
        }
    }
    crate::kernels::elementwise::count_block(status, 0);
    assert forall|x: int| 0 <= x < before.len() implies #[trigger] d@[x] == {
        let r = x / n_cols as int;
        let c = x % n_cols as int;
        if block_m * 32 <= r < block_m * 32 + 32 && block_n * 16 <= c < block_n * 16 + 16 {
            product_element(a@, b@, k_dim as nat, r, c)
        } else {
            before[x]
        }
    } by {
        let r = x / width as int;
        let c = x % width as int;
        if m0 <= r < m0 + 32 && n0 <= c < n0 + 16 {
            lemma_slots(r - m0, c - n0);
        }
    }
}

/// The row within a block of the element that an accumulator is for: accumulator
/// `4 * tid + q` belongs to thread `tid`.
spec fn slot_row(slot: int) -> int {
    slot / 4 / 8 * 2 + slot % 4 / 2
}

spec fn slot_col(slot: int) -> int {
    slot / 4 % 8 * 2 + slot % 2
}

spec fn slot_of(r: int, c: int) -> int {
    (r / 2 * 8 + c / 2) * 4 + r % 2 * 2 + c % 2
}

proof fn lemma_slots(r: int, c: int)
    requires
        0 <= r < 32,
        0 <= c < 16,
    ensures
        0 <= slot_of(r, c) < 512,
        slot_row(slot_of(r, c)) == r,
        slot_col(slot_of(r, c)) == c,
{
    let s = slot_of(r, c);
    assert(s / 4 == r / 2 * 8 + c / 2 && s % 4 == r % 2 * 2 + c % 2);
}

/// The output once the accumulators before `slot` are stored.
spec fn stored<S: Scalar>(
    d: Seq<S>,
    before: Seq<S>,
    a: Seq<S>,
    b: Seq<S>,
    k: nat,
    m0: int,
    n0: int,
    width: int,
    slot: int,
) -> bool {
    &&& d.len() == before.len()
    &&& forall|x: int|
        0 <= x < before.len() ==> #[trigger] d[x] == {
            let r = x / width;
            let c = x % width;
            if m0 <= r < m0 + 32 && n0 <= c < n0 + 16 && slot_of(r - m0, c - n0) < slot {
                product_element(a, b, k, r, c)
            } else {
                before[x]
            }
        }
}

proof fn lemma_store_step<S: Scalar>(
    mid: Seq<S>,
    before: Seq<S>,
    a: Seq<S>,
    b: Seq<S>,
    k: nat,
    m0: int,
    n0: int,
    width: int,
    slot: int,
)
    requires
        0 <= slot < 512,
        0 <= m0,
        0 <= n0,
        n0 + 16 <= width,
        (m0 + 32) * width <= before.len(),
        stored(mid, before, a, b, k, m0, n0, width, slot),
    ensures
        stored(
            mid.update(
                (m0 + slot_row(slot)) * width + (n0 + slot_col(slot)),
                fused_element(a, b, k, m0, n0, slot, k),
            ),
            before,
            a,
            b,
            k,
            m0,
            n0,
            width,
            slot + 1,
        ),
{
    let (r, c) = (slot_row(slot), slot_col(slot));
    let at = (m0 + r) * width + (n0 + c);
    let val = fused_element(a, b, k, m0, n0, slot, k);
    let after = mid.update(at, val);
    assert(0 <= r < 32 && 0 <= c < 16);
    lemma_slots(r, c);
    assert(slot_of(r, c) == slot);
    assert(0 <= at < before.len()) by {
        lemma_cell_bound(m0 + r, m0 + 32, n0 + c, width);
    }
    assert(at / width == m0 + r && at % width == n0 + c) by {
        assert(at == width * (m0 + r) + (n0 + c)) by (nonlinear_arith)
            requires
                at == (m0 + r) * width + (n0 + c),
        ;
        vstd::arithmetic::div_mod::lemma_fundamental_div_mod_converse(at, width, m0 + r, n0 + c);
    }
    assert forall|x: int| 0 <= x < before.len() implies #[trigger] after[x] == {
        let r = x / width;
        let c = x % width;
        if m0 <= r < m0 + 32 && n0 <= c < n0 + 16 && slot_of(r - m0, c - n0) < slot + 1 {
            product_element(a, b, k, r, c)
        } else {
            before[x]
        }
    } by {
        if x != at {
            assert(after[x] == mid[x]);
            let rx = x / width;
            let cx = x % width;
            if m0 <= rx < m0 + 32 && n0 <= cx < n0 + 16 && slot_of(rx - m0, cx - n0) == slot {
                lemma_slots(rx - m0, cx - n0);
                lemma_tile_index_any(x, width);
                assert(false);
            }
        }
    }
}

proof fn lemma_tile_index_any(x: int, width: int)
    requires
        0 <= x,
        0 < width,
    ensures
        (x / width) * width + x % width == x,
        0 <= x % width < width,
{
    vstd::arithmetic::div_mod::lemma_fundamental_div_mod(x, width);
    let q = x / width;
    assert(width * q == q * width) by (nonlinear_arith);
    assert(0 <= x % width < width) by (nonlinear_arith)
        requires
            0 < width,
    ;
}

proof fn lemma_row_end(r: int, rows: int, k: int)
    requires
        0 <= r < rows,
        0 <= k,
    ensures
        0 <= r * k,
        r * k + k <= rows * k,
{
    assert(0 <= r * k && r * k + k <= rows * k) by (nonlinear_arith)
        requires
            0 <= r < rows,
            0 <= k,
    ;
}

/// The first `n` products of the element that an accumulator is for.
spec fn fused_element<S: Scalar>(
    a: Seq<S>,
    b: Seq<S>,
    k: nat,
    m0: int,
    n0: int,
    slot: int,
    n: nat,
) -> S {
    let r = m0 + slot_row(slot);
    let c = n0 + slot_col(slot);
    fused_dot(a.subrange(r * k, r * k + k), b.subrange(c * k, c * k + k), n)
}

} // verus!
