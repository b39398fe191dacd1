//! Inputs of a forward pass: padded tokens and column-major weights.

use vstd::prelude::*;

use crate::index::{lemma_cell, lemma_next_row, lemma_place};
use crate::reference::column;

verus! {

/// The least number of rows that the matrix kernels take.
pub const MIN_SEQ: u32 = 32;

/// The rows of a pass over so many tokens: the next multiple of 32, and at least 32.
pub open spec fn padded_rows(actual: int) -> int {
    let up = (actual + 31) / 32 * 32;
    if up < MIN_SEQ {
        MIN_SEQ as int
    } else {
        up
    }
}

/// The rows of a pass over so many tokens.
pub fn padded_len(actual: u32) -> (r: u32)
    requires
        actual <= u32::MAX - 31,
    ensures
        r == padded_rows(actual as int),
{
    let up: u32 = (actual + 31) / 32 * 32;
    if up < MIN_SEQ {
        MIN_SEQ
    } else {
        up
    }
}

/// The rows hold all tokens and fill whole tiles.
pub proof fn padding_is_enough(actual: int)
    requires
        0 <= actual,
    ensures
        actual <= padded_rows(actual),
        padded_rows(actual) % 32 == 0,
        padded_rows(actual) >= 32,
        actual >= 1 ==> padded_rows(actual) < actual + 32,
{
}

/// Tokens cut off or filled up with token 0 to `seq`.
pub open spec fn padded_tokens(tokens: Seq<u32>, seq: nat) -> Seq<u32> {
    Seq::new(
        seq,
        |i: int|
            if i < tokens.len() {
                tokens[i]
            } else {
                0u32
            },
    )
}

/// Cuts off or fills up tokens to `seq`.
pub fn pad_tokens(tokens: &Vec<u32>, seq: usize) -> (r: Vec<u32>)
    ensures
        r@ == padded_tokens(tokens@, seq as nat),
{
    let mut r: Vec<u32> = Vec::new();
    for i in 0..seq
        invariant
            r@ == padded_tokens(tokens@, i as nat),
    {
        if i < tokens.len() {
            r.push(tokens[i]);
        } else {
            r.push(0);
        }
    }
    r
}

/// A row-major matrix of `k` rows and `n` columns, column by column.
pub open spec fn col_major<T>(w: Seq<T>, k: nat, n: nat) -> Seq<T> {
    Seq::new(k * n, |i: int| w[(i % k as int) * n + i / k as int])
}

/// Turns a row-major into a column-major matrix.
pub fn to_col_major(w: &Vec<u32>, k: usize, n: usize) -> (cm: Vec<u32>)
    requires
        k * n <= w@.len(),
    ensures
        cm@ == col_major(w@, k as nat, n as nat),
{
    let size: usize = w.len();
    let ghost want = col_major(w@, k as nat, n as nat);
    let mut cm: Vec<u32> = Vec::new();
    proof {
        assert(k * n == n * k) by (nonlinear_arith);
        lemma_next_row(0, k as int);
    }
    for col in 0..n
        invariant
            size == w@.len(),
            k * n <= size,
            k * n == n * k,
            want.len() == n * k,
            want == col_major(w@, k as nat, n as nat),
            cm@ == want.take(col * k),
    {
        proof {
            lemma_next_row(col as int, k as int);
            assert(0 <= col * k && col * k + k <= n * k) by (nonlinear_arith)
                requires
                    0 <= col < n,
                    0 <= k,
            ;
        }
        for row in 0..k
            invariant
                0 <= col < n,
                size == w@.len(),
                k * n <= size,
                col * k + k <= n * k,
                want.len() == n * k,
                want == col_major(w@, k as nat, n as nat),
                cm@ == want.take(col * k + row),
        {
            proof {
                lemma_cell(col as int, n as int, row as int, k as int);
                lemma_cell(row as int, k as int, col as int, n as int);
            }
            cm.push(w[row * n + col]);
        }
    }
    assert(cm@ =~= want);
    cm
}

/// Each column of the matrix is a stretch of its column-major form.
pub proof fn columns_are_contiguous<T>(w: Seq<T>, k: nat, n: nat, c: int)
    requires
        w.len() == k * n,
        0 <= c < n,
    ensures
        0 <= c * k,
        c * k + k <= k * n,
        col_major(w, k, n).subrange(c * k, c * k + k) == column(w, k, n as int, c),
{
    assert(0 <= c * k && c * k + k <= k * n) by (nonlinear_arith)
        requires
            0 <= c < n,
            0 <= k,
    ;
    let stretch = col_major(w, k, n).subrange(c * k, c * k + k);
    let col = column(w, k, n as int, c);
    assert forall|p: int| 0 <= p < k implies #[trigger] stretch[p] == col[p] by {
        lemma_cell(c, n as int, p, k as int);
        assert(n * k == k * n) by (nonlinear_arith);
    }
    assert(stretch =~= col);
}

/// Reading the column-major form of a matrix as a row-major one and turning it again
/// gives the matrix back.
pub proof fn turning_twice_gives_the_matrix_back<T>(w: Seq<T>, k: nat, n: nat)
    requires
        w.len() == k * n,
    ensures
        col_major(col_major(w, k, n), n, k) == w,
{
    let cm = col_major(w, k, n);
    let back = col_major(cm, n, k);
    assert(n * k == k * n) by (nonlinear_arith);
    assert forall|i: int| 0 <= i < w.len() implies back[i] == w[i] by {
        lemma_place(i, k as int, n as int);
        let r = i / n as int;
        let c = i % n as int;
        lemma_cell(c, n as int, r, k as int);
        assert(back[i] == cm[c * k + r]);
    }
    assert(back =~= w);
}

} // verus!
