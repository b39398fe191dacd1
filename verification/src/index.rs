//! Places of elements in row-major arrays.

use vstd::prelude::*;

verus! {

/// An element's place determines its row and column.
pub(crate) proof fn lemma_cell(r: int, rows: int, c: int, cols: int)
    requires
        0 <= r < rows,
        0 <= c < cols,
    ensures
        0 <= r * cols,
        r * cols + c < rows * cols,
        r * cols + cols <= rows * cols,
        (r * cols + c) / cols == r,
        (r * cols + c) % cols == c,
{
    assert(0 <= r * cols && r * cols + cols <= rows * cols) by (nonlinear_arith)
        requires
            0 <= r < rows,
            0 <= cols,
    ;
    assert(r * cols + c == cols * r + c) by (nonlinear_arith);
    vstd::arithmetic::div_mod::lemma_fundamental_div_mod_converse(r * cols + c, cols, r, c);
}

/// Every place is that of an element.
pub(crate) proof fn lemma_place(i: int, rows: int, cols: int)
    requires
        0 <= i < rows * cols,
        0 <= rows,
        0 <= cols,
    ensures
        0 < cols,
        0 <= i / cols < rows,
        0 <= i % cols < cols,
        (i / cols) * cols + i % cols == i,
{
    assert(0 < cols) by (nonlinear_arith)
        requires
            0 <= i < rows * cols,
            0 <= cols,
    ;
    vstd::arithmetic::div_mod::lemma_fundamental_div_mod(i, cols);
    let q = i / cols;
    let m = i % cols;
    assert(0 <= m < cols && 0 <= q) by (nonlinear_arith)
        requires
            0 <= i,
            0 < cols,
            m == i % cols,
            q == i / cols,
    ;
    assert(cols * q == q * cols) by (nonlinear_arith);
    assert(q < rows) by (nonlinear_arith)
        requires
            q * cols + m == i,
            0 <= m,
            i < rows * cols,
            0 < cols,
    ;
}

/// The next row starts where a row ends.
pub(crate) proof fn lemma_next_row(r: int, cols: int)
    ensures
        (r + 1) * cols == r * cols + cols,
        0 * cols == 0,
{
    assert((r + 1) * cols == r * cols + cols) by (nonlinear_arith);
}

} // verus!
