//! The matrices that the matrix kernels are tried on, and their products.

use vstd::prelude::*;

use crate::index::{lemma_cell, lemma_next_row};
use crate::kernels::matrices::{
    float_bits, is_float_of, pattern_a, pattern_a_value, pattern_b, pattern_b_value,
};

verus! {

/// A matrix of small integers.
#[derive(Clone, Copy, Debug, PartialEq, Eq, Structural)]
pub enum TestMatrix {
    /// Small numbers without a visible pattern.
    PatternA,
    /// Other small numbers without a visible pattern.
    PatternB,
    /// Rows of 1, 2, 3, 4 in turn, or all ones.
    StripedRows { striped: bool },
    /// Columns of 1, 2, 3 and so on, or all ones.
    StripedColumns { striped: bool },
    /// Ones on the diagonal.
    Identity,
    /// 1, 2, 3 and so on along rows of eight.
    Counting,
}

/// An element of a matrix.
pub open spec fn value(m: TestMatrix, r: int, c: int) -> int {
    match m {
        TestMatrix::PatternA => pattern_a_value(r, c),
        TestMatrix::PatternB => pattern_b_value(r, c),
        TestMatrix::StripedRows { striped } => if striped {
            r % 4 + 1
        } else {
            1
        },
        TestMatrix::StripedColumns { striped } => if striped {
            c + 1
        } else {
            1
        },
        TestMatrix::Identity => if r == c {
            1
        } else {
            0
        },
        TestMatrix::Counting => r * 8 + c + 1,
    }
}

/// The largest row or column number.
pub const LAST: usize = 0xFFFF;

/// An element of a matrix.
pub fn element(m: TestMatrix, r: usize, c: usize) -> (v: u32)
    requires
        r <= LAST,
        c <= LAST,
    ensures
        v == value(m, r as int, c as int),
        v < 0x100_0000,
{
    match m {
        TestMatrix::PatternA => pattern_a(r, c),
        TestMatrix::PatternB => pattern_b(r, c),
        TestMatrix::StripedRows { striped } => if striped {
            (r % 4 + 1) as u32
        } else {
            1
        },
        TestMatrix::StripedColumns { striped } => if striped {
            (c + 1) as u32
        } else {
            1
        },
        TestMatrix::Identity => if r == c {
            1
        } else {
            0
        },
        TestMatrix::Counting => (r * 8 + c + 1) as u32,
    }
}

/// The floats of a matrix, row by row.
pub open spec fn floats_of(bits: Seq<u32>, m: TestMatrix, rows: int, cols: int) -> bool {
    &&& bits.len() == rows * cols
    &&& forall|r: int, c: int|
        0 <= r < rows && 0 <= c < cols ==> is_float_of(
            #[trigger] bits[r * cols + c],
            value(m, r, c) as u32,
        )
}

/// Writes a matrix out as floats, row by row.
pub fn build(m: TestMatrix, rows: usize, cols: usize) -> (bits: Vec<u32>)
    requires
        rows <= LAST,
        cols <= LAST,
        rows * cols <= usize::MAX,
    ensures
        floats_of(bits@, m, rows as int, cols as int),
{
    let mut bits: Vec<u32> = Vec::new();
    proof {
        lemma_next_row(0, cols as int);
    }
    for r in 0..rows
        invariant
            rows <= LAST,
            cols <= LAST,
            rows * cols <= usize::MAX,
            floats_of(bits@, m, r as int, cols as int),
    {
        proof {
            lemma_next_row(r as int, cols as int);
        }
        let ghost before = bits@;
        for c in 0..cols
            invariant
                r < rows <= LAST,
                cols <= LAST,
                floats_of(before, m, r as int, cols as int),
                bits@.len() == r * cols + c,
                forall|i: int| 0 <= i < before.len() ==> bits@[i] == before[i],
                forall|j: int|
                    0 <= j < c ==> is_float_of(
                        #[trigger] bits@[r * cols + j],
                        value(m, r as int, j) as u32,
                    ),
        {
            bits.push(float_bits(element(m, r, c)));
        }
        assert forall|i: int, j: int| 0 <= i < r + 1 && 0 <= j < cols implies is_float_of(
            #[trigger] bits@[i * cols + j],
            value(m, i, j) as u32,
        ) by {
            if i < r {
                lemma_cell(i, r as int, j, cols as int);
                assert(before[i * cols + j] == bits@[i * cols + j]);
            }
        }
    }
    bits
}

/// An element of the product of two matrices, over the first `k` summands.
pub open spec fn product_sum(a: TestMatrix, b: TestMatrix, i: int, j: int, k: nat) -> int
    decreases k,
{
    if k == 0 {
        0
    } else {
        product_sum(a, b, i, j, (k - 1) as nat) + value(a, i, k - 1) * value(b, k - 1, j)
    }
}

/// An element of the product of two matrices.
pub fn expected_product(a: TestMatrix, b: TestMatrix, i: usize, j: usize, k: usize) -> (r: u64)
    requires
        i <= LAST,
        j <= LAST,
        k <= LAST,
    ensures
        r == product_sum(a, b, i as int, j as int, k as nat),
{
    let mut sum: u64 = 0;
    for p in 0..k
        invariant
            i <= LAST,
            j <= LAST,
            k <= LAST,
            sum == product_sum(a, b, i as int, j as int, p as nat),
            sum <= p * 0xFFFF_FFFF_FFFF,
    {
        let x: u64 = element(a, i, p) as u64;
        let y: u64 = element(b, p, j) as u64;
        assert(0 <= x * y <= 0xFF_FFFF * 0xFF_FFFF) by (nonlinear_arith)
            requires
                0 <= x <= 0xFF_FFFF,
                0 <= y <= 0xFF_FFFF,
        ;
        sum = sum + x * y;
    }
    sum
}

/// The product of striped matrices is the product of a row's and a column's number, as
/// often as there are summands.
pub proof fn striped_products(x: bool, y: bool, i: int, j: int, k: nat)
    ensures
        ({
            let a = TestMatrix::StripedRows { striped: x };
            let b = TestMatrix::StripedColumns { striped: y };
            product_sum(a, b, i, j, k) == value(a, i, 0) * value(b, 0, j) * k
        }),
    decreases k,
{
    let a = TestMatrix::StripedRows { striped: x };
    let b = TestMatrix::StripedColumns { striped: y };
    let p = value(a, i, 0) * value(b, 0, j);
    if k > 0 {
        striped_products(x, y, i, j, (k - 1) as nat);
        assert(p * (k - 1) + p == p * k) by (nonlinear_arith);
    } else {
        assert(p * k == 0) by (nonlinear_arith)
            requires
                k == 0,
        ;
    }
}

/// The identity gives a matrix back.
pub proof fn identity_gives_the_matrix_back(b: TestMatrix, i: int, j: int, k: nat)
    requires
        0 <= i,
    ensures
        product_sum(TestMatrix::Identity, b, i, j, k) == if i < k {
            value(b, i, j)
        } else {
            0
        },
    decreases k,
{
    if k > 0 {
        identity_gives_the_matrix_back(b, i, j, (k - 1) as nat);
        let y = value(b, k - 1, j);
        assert(0 * y == 0 && 1 * y == y) by (nonlinear_arith);
    }
}

/// The row of the product that a lane holds in its register `r`.
pub open spec fn mapped_row(lane: int, r: int) -> int {
    lane * 2 + if r == 0 {
        0int
    } else if r == 1 {
        1
    } else if r == 2 {
        8
    } else {
        9
    }
}

/// What thread `tid` holds in register `r` after the identity was multiplied with the
/// counting matrix.
pub fn mapped_expected(tid: u32, r: usize) -> (v: u32)
    requires
        tid < 32,
        r < 4,
    ensures
        v == product_sum(
            TestMatrix::Identity,
            TestMatrix::Counting,
            mapped_row(tid as int % 4, r as int),
            tid as int / 4,
            16,
        ),
{
    let group: u32 = tid / 4;
    let lane: u32 = tid % 4;
    let row: u32 = lane * 2 + match r {
        0 => 0,
        1 => 1,
        2 => 8,
        _ => 9,
    };
    proof {
        identity_gives_the_matrix_back(TestMatrix::Counting, row as int, group as int, 16);
    }
    row * 8 + group + 1
}

/// All blocks of a kernel have reported.
pub fn blocks_reported(status: u32, blocks: u32) -> (r: bool)
    ensures
        r == (status >= blocks),
{
    status >= blocks
}

} // verus!
