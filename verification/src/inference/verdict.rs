//! What the bits of a result say: whether it is finite, and how large it is.

use vstd::prelude::*;

use crate::half::{exponent32, fraction32};
use crate::kernels::reduce::range_sum;
use crate::reference::range_max;
use crate::scalar::{Constant, Scalar};

verus! {

/// The bits of a float that is not a number.
pub open spec fn is_nan(bits: u32) -> bool {
    exponent32(bits) == 255 && fraction32(bits) != 0
}

/// The bits of an infinity.
pub open spec fn is_infinite(bits: u32) -> bool {
    exponent32(bits) == 255 && fraction32(bits) == 0
}

/// The bits without the sign: those of the absolute value. They order finite numbers as
/// the absolute values are ordered.
pub open spec fn magnitude(bits: u32) -> u32 {
    (bits % 0x8000_0000) as u32
}

/// Whether a float is not a number.
pub fn bits_nan(bits: u32) -> (r: bool)
    ensures
        r == is_nan(bits),
{
    bits / 0x80_0000 % 0x100 == 255 && bits % 0x80_0000 != 0
}

/// Whether a float is an infinity.
pub fn bits_infinite(bits: u32) -> (r: bool)
    ensures
        r == is_infinite(bits),
{
    bits / 0x80_0000 % 0x100 == 255 && bits % 0x80_0000 == 0
}

/// How many of the elements are not numbers.
pub open spec fn count_nan(x: Seq<u32>) -> nat
    decreases x.len(),
{
    if x.len() == 0 {
        0
    } else {
        count_nan(x.drop_last()) + if is_nan(x.last()) {
            1nat
        } else {
            0nat
        }
    }
}

/// How many of the elements are infinite.
pub open spec fn count_infinite(x: Seq<u32>) -> nat
    decreases x.len(),
{
    if x.len() == 0 {
        0
    } else {
        count_infinite(x.drop_last()) + if is_infinite(x.last()) {
            1nat
        } else {
            0nat
        }
    }
}

/// The greatest magnitude among the finite elements, or zero.
pub open spec fn max_magnitude(x: Seq<u32>) -> u32
    decreases x.len(),
{
    if x.len() == 0 {
        0
    } else {
        let before = max_magnitude(x.drop_last());
        let last = x.last();
        if !is_nan(last) && !is_infinite(last) && magnitude(last) > before {
            magnitude(last)
        } else {
            before
        }
    }
}

/// What a stretch of a result holds.
#[derive(Clone, Copy, Debug, PartialEq, Eq, Structural)]
pub struct Stats {
    pub nan: usize,
    pub infinite: usize,
    /// The bits of the greatest absolute value among the finite elements.
    pub max_abs: u32,
}

/// Looks through the elements from `start` to `end`.
pub fn stats(x: &Vec<u32>, start: usize, end: usize) -> (r: Stats)
    requires
        start <= end <= x@.len(),
    ensures
        r.nan == count_nan(x@.subrange(start as int, end as int)),
        r.infinite == count_infinite(x@.subrange(start as int, end as int)),
        r.max_abs == max_magnitude(x@.subrange(start as int, end as int)),
{
    let mut nan: usize = 0;
    let mut infinite: usize = 0;
    let mut max_abs: u32 = 0;
    for i in start..end
        invariant
            start <= end <= x@.len(),
            nan <= i - start,
            infinite <= i - start,
            nan == count_nan(x@.subrange(start as int, i as int)),
            infinite == count_infinite(x@.subrange(start as int, i as int)),
            max_abs == max_magnitude(x@.subrange(start as int, i as int)),
    {
        assert(x@.subrange(start as int, i + 1).drop_last() =~= x@.subrange(start as int, i as int));
        let v: u32 = x[i];
        if bits_nan(v) {
            nan += 1;
        } else if bits_infinite(v) {
            infinite += 1;
        } else if v % 0x8000_0000 > max_abs {
            max_abs = v % 0x8000_0000;
        }
    }
    Stats { nan, infinite, max_abs }
}

/// The bits of 1000, above which a result has exploded.
pub const MAGNITUDE_LIMIT: u32 = 0x447A_0000;

/// The bits of 65504, the greatest half-precision number.
pub const HALF_LIMIT: u32 = 0x477F_E000;

/// What is made of the output of a forward pass.
#[derive(Clone, Copy, Debug, PartialEq, Eq, Structural)]
pub enum Verdict {
    /// The row that predicts the next token is finite, and nothing has exploded. The
    /// greatest absolute value is given by its bits.
    Sound { max_abs: u32 },
    /// The row that predicts the next token is not finite.
    NotFinite { nan: usize, infinite: usize },
    /// An element is too large.
    TooLarge { max_abs: u32 },
}

/// The verdict on an output of `actual` rows of `dim` elements: the last row must be
/// finite, and the finite elements of all rows must not exceed 1000 in magnitude.
pub open spec fn verdict_of(output: Seq<u32>, actual: int, dim: int) -> Verdict {
    let last = output.subrange((actual - 1) * dim, actual * dim);
    let max_abs = max_magnitude(output.subrange(0, actual * dim));
    if count_nan(last) > 0 || count_infinite(last) > 0 {
        Verdict::NotFinite {
            nan: count_nan(last) as usize,
            infinite: count_infinite(last) as usize,
        }
    } else if max_abs > MAGNITUDE_LIMIT {
        Verdict::TooLarge { max_abs }
    } else {
        Verdict::Sound { max_abs }
    }
}

/// Judges the output of a forward pass.
pub fn judge(output: &Vec<u32>, actual: usize, dim: usize) -> (r: Verdict)
    requires
        actual > 0,
        actual * dim <= output@.len(),
    ensures
        r == verdict_of(output@, actual as int, dim as int),
{
    let _size: usize = output.len();
    proof {
        assert((actual - 1) * dim + dim == actual * dim && 0 <= (actual - 1) * dim)
            by (nonlinear_arith)
            requires
                actual >= 1,
                dim >= 0,
        ;
    }
    let end: usize = actual * dim;
    let start: usize = (actual - 1) * dim;
    let last = stats(output, start, end);
    let all = stats(output, 0, end);
    if last.nan > 0 || last.infinite > 0 {
        Verdict::NotFinite { nan: last.nan, infinite: last.infinite }
    } else if all.max_abs > MAGNITUDE_LIMIT {
        Verdict::TooLarge { max_abs: all.max_abs }
    } else {
        Verdict::Sound { max_abs: all.max_abs }
    }
}

/// The verdict on the row that predicts the next token alone: it must be finite.
pub open spec fn row_verdict_of(output: Seq<u32>, actual: int, dim: int) -> Verdict {
    let last = output.subrange((actual - 1) * dim, actual * dim);
    if count_nan(last) > 0 || count_infinite(last) > 0 {
        Verdict::NotFinite {
            nan: count_nan(last) as usize,
            infinite: count_infinite(last) as usize,
        }
    } else {
        Verdict::Sound { max_abs: max_magnitude(last) }
    }
}

/// Judges the row that predicts the next token.
pub fn judge_row(output: &Vec<u32>, actual: usize, dim: usize) -> (r: Verdict)
    requires
        actual > 0,
        actual * dim <= output@.len(),
    ensures
        r == row_verdict_of(output@, actual as int, dim as int),
{
    let _size: usize = output.len();
    proof {
        assert((actual - 1) * dim + dim == actual * dim && 0 <= (actual - 1) * dim)
            by (nonlinear_arith)
            requires
                actual >= 1,
                dim >= 0,
        ;
    }
    let last = stats(output, (actual - 1) * dim, actual * dim);
    if last.nan > 0 || last.infinite > 0 {
        Verdict::NotFinite { nan: last.nan, infinite: last.infinite }
    } else {
        Verdict::Sound { max_abs: last.max_abs }
    }
}

/// The complaint about scores: how many are not numbers and how many are infinite, if any.
pub fn check_scores(scores: &Vec<u32>) -> (r: Option<(usize, usize)>)
    ensures
        r == if count_nan(scores@) > 0 || count_infinite(scores@) > 0 {
            Some((count_nan(scores@) as usize, count_infinite(scores@) as usize))
        } else {
            None
        },
{
    let all = stats(scores, 0, scores.len());
    assert(scores@.subrange(0, scores@.len() as int) =~= scores@);
    if all.nan > 0 || all.infinite > 0 {
        Some((all.nan, all.infinite))
    } else {
        None
    }
}

/// What a layer left behind: the rows that hold an element that is not a number, the rows
/// whose greatest finite magnitude is beyond half precision, and the greatest of all.
pub struct LayerReport {
    pub nan_rows: Vec<usize>,
    pub overflow_rows: Vec<usize>,
    pub max_abs: u32,
}

/// Row `r` of a matrix.
pub open spec fn matrix_row(x: Seq<u32>, r: int, dim: int) -> Seq<u32> {
    x.subrange(r * dim, r * dim + dim)
}

/// The first `n` rows that hold an element that is not a number.
pub open spec fn rows_with_nan(x: Seq<u32>, dim: int, n: nat) -> Seq<usize>
    decreases n,
{
    if n == 0 {
        Seq::empty()
    } else {
        let before = rows_with_nan(x, dim, (n - 1) as nat);
        if count_nan(matrix_row(x, n - 1, dim)) > 0 {
            before.push((n - 1) as usize)
        } else {
            before
        }
    }
}

/// The first `n` rows that are beyond half precision.
pub open spec fn rows_beyond_half(x: Seq<u32>, dim: int, n: nat) -> Seq<usize>
    decreases n,
{
    if n == 0 {
        Seq::empty()
    } else {
        let before = rows_beyond_half(x, dim, (n - 1) as nat);
        if max_magnitude(matrix_row(x, n - 1, dim)) > HALF_LIMIT {
            before.push((n - 1) as usize)
        } else {
            before
        }
    }
}

/// The greatest finite magnitude of the first `n` rows.
pub open spec fn greatest_row(x: Seq<u32>, dim: int, n: nat) -> u32
    decreases n,
{
    if n == 0 {
        0
    } else {
        let before = greatest_row(x, dim, (n - 1) as nat);
        let row = max_magnitude(matrix_row(x, n - 1, dim));
        if row > before {
            row
        } else {
            before
        }
    }
}

/// Looks through the hidden state that a layer left, row by row.
pub fn report_layer(hidden: &Vec<u32>, actual: usize, dim: usize) -> (r: LayerReport)
    requires
        actual * dim <= hidden@.len(),
    ensures
        r.nan_rows@ == rows_with_nan(hidden@, dim as int, actual as nat),
        r.overflow_rows@ == rows_beyond_half(hidden@, dim as int, actual as nat),
        r.max_abs == greatest_row(hidden@, dim as int, actual as nat),
{
    let size: usize = hidden.len();
    let mut nan_rows: Vec<usize> = Vec::new();
    let mut overflow_rows: Vec<usize> = Vec::new();
    let mut max_abs: u32 = 0;
    for row in 0..actual
        invariant
            size == hidden@.len(),
            actual * dim <= size,
            nan_rows@ == rows_with_nan(hidden@, dim as int, row as nat),
            overflow_rows@ == rows_beyond_half(hidden@, dim as int, row as nat),
            max_abs == greatest_row(hidden@, dim as int, row as nat),
    {
        proof {
            assert(0 <= row * dim && row * dim + dim <= actual * dim) by (nonlinear_arith)
                requires
                    0 <= row < actual,
                    0 <= dim,
            ;
        }
        let s = stats(hidden, row * dim, row * dim + dim);
        if s.nan > 0 {
            nan_rows.push(row);
        }
        if s.max_abs > HALF_LIMIT {
            overflow_rows.push(row);
        }
        if s.max_abs > max_abs {
            max_abs = s.max_abs;
        }
    }
    LayerReport { nan_rows, overflow_rows, max_abs }
}

/// The softmax of scores, relative to the greatest of them.
pub open spec fn probabilities_of<S: Scalar>(logits: Seq<S>) -> Seq<S> {
    let max = range_max(logits, 0, logits.len());
    let e = Seq::new(logits.len(), |i: int| S::exponential(S::difference(logits[i], max)));
    Seq::new(logits.len(), |i: int| S::quotient(e[i], range_sum(e, 0, e.len())))
}

/// Turns scores into probabilities.
pub fn probabilities<S: Scalar>(logits: &Vec<S>) -> (r: Vec<S>)
    ensures
        r@ == probabilities_of(logits@),
{
    let n: usize = logits.len();
    let mut max_logit = S::constant(Constant::NegInfinity);
    for i in 0..n
        invariant
            n == logits@.len(),
            max_logit == range_max(logits@, 0, i as nat),
    {
        max_logit = max_logit.larger(&logits[i]);
    }
    let ghost e = Seq::new(
        logits@.len(),
        |i: int| S::exponential(S::difference(logits@[i], max_logit)),
    );
    let mut exps: Vec<S> = Vec::new();
    let mut exp_sum = S::constant(Constant::Zero);
    for i in 0..n
        invariant
            n == logits@.len(),
            e == Seq::new(
                logits@.len(),
                |i: int| S::exponential(S::difference(logits@[i], max_logit)),
            ),
            exps@ == e.take(i as int),
            exp_sum == range_sum(e, 0, i as nat),
    {
        let x = logits[i].minus(&max_logit).exp();
        exp_sum = exp_sum.plus(&x);
        exps.push(x);
    }
    assert(exps@ =~= e);
    let mut r: Vec<S> = Vec::new();
    for i in 0..n
        invariant
            n == logits@.len(),
            exps@ == e,
            e.len() == n,
            exp_sum == range_sum(e, 0, n as nat),
            r@.len() == i,
            forall|j: int|
                0 <= j < i ==> #[trigger] r@[j] == S::quotient(e[j], range_sum(e, 0, n as nat)),
    {
        r.push(exps[i].over(&exp_sum));
    }
    assert(r@ =~= probabilities_of(logits@));
    r
}

/// An element is finite or infinite or not a number, and only one of these.
pub proof fn elements_are_classified(bits: u32)
    ensures
        !(is_nan(bits) && is_infinite(bits)),
        is_nan(bits) <==> magnitude(bits) > 0x7F80_0000,
        is_infinite(bits) <==> magnitude(bits) == 0x7F80_0000,
{
    let m = magnitude(bits);
    assert(m as int == exponent32(bits) * 0x80_0000 + fraction32(bits));
}

} // verus!
