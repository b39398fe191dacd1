//! Why the lanes' fragments make up a product.
//!
//! The matrix instruction multiplies the elements that the lanes of a warp hold. What it
//! is handed decides what it can compute: here it is shown that the four lanes of a group
//! hold a row of a tile, that the four lanes of another hold a column, and that over all
//! tiles their products are those of a row and a column of the two matrices.

use vstd::prelude::*;

use crate::kernels::gemm::{block_operands, result_cell, Operands};

verus! {

/// The sum of the products of two packed pairs. `f` gives the number that a half stands for.
pub open spec fn word_product(f: spec_fn(int) -> int, a: u32, b: u32) -> int {
    f(a as int % 0x1_0000) * f(b as int % 0x1_0000) + f(a as int / 0x1_0000) * f(
        b as int / 0x1_0000,
    )
}

/// The sum of the products of the first `n` pairs of row `r` of the first matrix and column
/// `c` of the second.
pub open spec fn row_product(
    f: spec_fn(int) -> int,
    a: Seq<u32>,
    b: Seq<u32>,
    k_half: int,
    r: int,
    c: int,
    n: nat,
) -> int
    decreases n,
{
    if n == 0 {
        0
    } else {
        row_product(f, a, b, k_half, r, c, (n - 1) as nat) + word_product(
            f,
            a[r * k_half + (n - 1)],
            b[c * k_half + (n - 1)],
        )
    }
}

/// What one lane of a row group and one of a column group contribute to a tile's products;
/// `lower` says whether it is for the lower eight rows of the tile.
pub open spec fn lane_product(
    f: spec_fn(int) -> int,
    row: Operands,
    col: Operands,
    lower: bool,
) -> int {
    if lower {
        word_product(f, row.a2, col.b0) + word_product(f, row.a3, col.b1)
    } else {
        word_product(f, row.a0, col.b0) + word_product(f, row.a1, col.b1)
    }
}

/// A place in a block: the warp, the group that holds the row, the group that holds the
/// column, and whether the row is one of the lower eight.
pub struct Place {
    pub block_m: int,
    pub block_n: int,
    pub warp: int,
    pub row_group: int,
    pub col_group: int,
    pub lower: bool,
}

impl Place {
    /// The place is in a block of four warps.
    pub open spec fn wf(self) -> bool {
        &&& 0 <= self.warp < 4
        &&& 0 <= self.row_group < 8
        &&& 0 <= self.col_group < 8
    }

    /// The row of the first matrix.
    pub open spec fn row(self) -> int {
        self.block_m * 32 + self.warp / 2 * 16 + self.row_group + if self.lower {
            8int
        } else {
            0
        }
    }

    /// The column of the second matrix.
    pub open spec fn column(self) -> int {
        self.block_n * 16 + self.warp % 2 * 8 + self.col_group
    }
}

/// What the four lanes of the two groups contribute in one tile.
pub open spec fn tile_product(
    f: spec_fn(int) -> int,
    a: Seq<u32>,
    b: Seq<u32>,
    k_half: int,
    t: int,
    p: Place,
) -> int {
    let row = |l: int|
        block_operands(a, b, p.block_m, p.block_n, k_half, t, p.warp * 32 + p.row_group * 4 + l);
    let col = |l: int|
        block_operands(a, b, p.block_m, p.block_n, k_half, t, p.warp * 32 + p.col_group * 4 + l);
    lane_product(f, row(0), col(0), p.lower) + lane_product(f, row(1), col(1), p.lower)
        + lane_product(f, row(2), col(2), p.lower) + lane_product(f, row(3), col(3), p.lower)
}

/// What they contribute in the first `n` tiles.
pub open spec fn tiles_product(
    f: spec_fn(int) -> int,
    a: Seq<u32>,
    b: Seq<u32>,
    k_half: int,
    p: Place,
    n: nat,
) -> int
    decreases n,
{
    if n == 0 {
        0
    } else {
        tiles_product(f, a, b, k_half, p, (n - 1) as nat) + tile_product(
            f,
            a,
            b,
            k_half,
            n - 1,
            p,
        )
    }
}

proof fn lemma_lane(
    f: spec_fn(int) -> int,
    a: Seq<u32>,
    b: Seq<u32>,
    k_half: int,
    t: int,
    p: Place,
    l: int,
)
    requires
        p.wf(),
        0 <= l < 4,
    ensures
        lane_product(
            f,
            block_operands(
                a,
                b,
                p.block_m,
                p.block_n,
                k_half,
                t,
                p.warp * 32 + p.row_group * 4 + l,
            ),
            block_operands(
                a,
                b,
                p.block_m,
                p.block_n,
                k_half,
                t,
                p.warp * 32 + p.col_group * 4 + l,
            ),
            p.lower,
        ) == word_product(
            f,
            a[p.row() * k_half + (t * 8 + l)],
            b[p.column() * k_half + (t * 8 + l)],
        ) + word_product(
            f,
            a[p.row() * k_half + (t * 8 + l + 4)],
            b[p.column() * k_half + (t * 8 + l + 4)],
        ),
{
    let x = p.warp * 32 + p.row_group * 4 + l;
    let y = p.warp * 32 + p.col_group * 4 + l;
    assert(x / 32 == p.warp && x % 32 == p.row_group * 4 + l && x % 4 == l);
    assert(y / 32 == p.warp && y % 32 == p.col_group * 4 + l && y % 4 == l);
    assert(x % 32 / 4 == p.row_group && y % 32 / 4 == p.col_group);
}

proof fn lemma_next(
    f: spec_fn(int) -> int,
    a: Seq<u32>,
    b: Seq<u32>,
    k_half: int,
    r: int,
    c: int,
    n: nat,
)
    ensures
        row_product(f, a, b, k_half, r, c, n + 1) == row_product(f, a, b, k_half, r, c, n)
            + word_product(f, a[r * k_half + n], b[c * k_half + n]),
{
}

/// In one tile, the lanes of a row group and of a column group hold the elements of eight
/// pairs of that row and that column.
proof fn lemma_tile(
    f: spec_fn(int) -> int,
    a: Seq<u32>,
    b: Seq<u32>,
    k_half: int,
    t: nat,
    p: Place,
)
    requires
        p.wf(),
    ensures
        row_product(f, a, b, k_half, p.row(), p.column(), 8 * t + 8) == row_product(
            f,
            a,
            b,
            k_half,
            p.row(),
            p.column(),
            8 * t,
        ) + tile_product(f, a, b, k_half, t as int, p),
{
    lemma_lane(f, a, b, k_half, t as int, p, 0);
    lemma_lane(f, a, b, k_half, t as int, p, 1);
    lemma_lane(f, a, b, k_half, t as int, p, 2);
    lemma_lane(f, a, b, k_half, t as int, p, 3);
    let (r, c) = (p.row(), p.column());
    lemma_next(f, a, b, k_half, r, c, 8 * t);
    lemma_next(f, a, b, k_half, r, c, 8 * t + 1);
    lemma_next(f, a, b, k_half, r, c, 8 * t + 2);
    lemma_next(f, a, b, k_half, r, c, 8 * t + 3);
    lemma_next(f, a, b, k_half, r, c, 8 * t + 4);
    lemma_next(f, a, b, k_half, r, c, 8 * t + 5);
    lemma_next(f, a, b, k_half, r, c, 8 * t + 6);
    lemma_next(f, a, b, k_half, r, c, 8 * t + 7);
}

/// Over all tiles, the products of what the lanes of a row group and of a column group hold
/// are those of a whole row and a whole column, whatever numbers the halves stand for.
pub proof fn fragments_multiply_to_the_product(
    f: spec_fn(int) -> int,
    a: Seq<u32>,
    b: Seq<u32>,
    k_tiles: nat,
    p: Place,
)
    requires
        p.wf(),
    ensures
        tiles_product(f, a, b, (k_tiles * 8) as int, p, k_tiles) == row_product(
            f,
            a,
            b,
            (k_tiles * 8) as int,
            p.row(),
            p.column(),
            k_tiles * 8,
        ),
{
    lemma_tiles(f, a, b, (k_tiles * 8) as int, p, k_tiles);
}

proof fn lemma_tiles(
    f: spec_fn(int) -> int,
    a: Seq<u32>,
    b: Seq<u32>,
    k_half: int,
    p: Place,
    n: nat,
)
    requires
        p.wf(),
    ensures
        tiles_product(f, a, b, k_half, p, n) == row_product(
            f,
            a,
            b,
            k_half,
            p.row(),
            p.column(),
            8 * n,
        ),
    decreases n,
{
    if n > 0 {
        lemma_tiles(f, a, b, k_half, p, (n - 1) as nat);
        lemma_tile(f, a, b, k_half, (n - 1) as nat, p);
        assert(8 * (n - 1) + 8 == 8 * n);
    }
}

/// A result is stored where its row and its column meet: register `reg` of a lane is the
/// cell of the lane's own group's row and of the column of group `2 * lane + reg % 2`.
pub proof fn results_lie_where_row_and_column_meet(p: Place, lane: int, reg: int, n_cols: int)
    requires
        p.wf(),
        0 <= lane < 4,
        0 <= reg < 4,
        p.col_group == 2 * lane + reg % 2,
        p.lower == (reg >= 2),
    ensures
        result_cell(
            p.block_m,
            p.block_n,
            p.warp * 32 + p.row_group * 4 + lane,
            reg,
            n_cols,
        ) == p.row() * n_cols + p.column(),
{
    let x = p.warp * 32 + p.row_group * 4 + lane;
    assert(x / 32 == p.warp && x % 32 == p.row_group * 4 + lane && x % 4 == lane);
    assert(x % 32 / 4 == p.row_group);
    assert(reg / 2 == if reg >= 2 { 1int } else { 0int });
}

} // verus!
