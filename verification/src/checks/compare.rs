//! How far results are from what is expected.

use vstd::prelude::*;

use crate::index::lemma_cell;
use crate::kernels::reduce::range_sum;
use crate::scalar::{above, zero, Constant, Scalar};

verus! {

/// The absolute value of an element.
pub open spec fn absolute<S: Scalar>(x: S) -> S {
    S::maximum(x, S::difference(zero(), x))
}

/// How far two elements are apart.
pub open spec fn distance<S: Scalar>(got: S, want: S) -> S {
    absolute(S::difference(got, want))
}

/// How far two elements are apart, relative to the expected one unless that is tiny.
pub open spec fn relative_distance<S: Scalar>(got: S, want: S, tiny: S) -> S {
    if above(absolute(want), tiny) {
        S::quotient(distance(got, want), absolute(want))
    } else {
        distance(got, want)
    }
}

/// The absolute value of an element.
pub fn abs<S: Scalar>(x: &S) -> (r: S)
    ensures
        r == absolute(*x),
{
    x.larger(&S::constant(Constant::Zero).minus(x))
}

fn measure<S: Scalar>(got: &S, want: &S) -> (r: S)
    ensures
        r == distance(*got, *want),
{
    abs(&got.minus(want))
}

fn measure_relative<S: Scalar>(got: &S, want: &S, tiny: &S) -> (r: S)
    ensures
        r == relative_distance(*got, *want, *tiny),
{
    let size = abs(want);
    if size.exceeds(tiny) {
        measure(got, want).over(&size)
    } else {
        measure(got, want)
    }
}

/// What a comparison found: how many elements are too far off, and how far off the
/// farthest is.
pub struct Comparison<S> {
    pub mismatches: usize,
    pub farthest: S,
}

/// How many of the first `n` elements are farther off than `tolerance`.
pub open spec fn count_far<S: Scalar>(got: Seq<S>, want: Seq<S>, tolerance: S, n: nat) -> nat
    decreases n,
{
    if n == 0 {
        0
    } else {
        count_far(got, want, tolerance, (n - 1) as nat) + if above(
            distance(got[n - 1], want[n - 1]),
            tolerance,
        ) {
            1nat
        } else {
            0nat
        }
    }
}

/// How far off the farthest of the first `n` elements is.
pub open spec fn farthest_of<S: Scalar>(got: Seq<S>, want: Seq<S>, n: nat) -> S
    decreases n,
{
    if n == 0 {
        zero()
    } else {
        let before = farthest_of(got, want, (n - 1) as nat);
        let d = distance(got[n - 1], want[n - 1]);
        if above(d, before) {
            d
        } else {
            before
        }
    }
}

/// Compares results with what is expected, element by element.
pub fn compare_absolute<S: Scalar>(got: &Vec<S>, want: &Vec<S>, tolerance: &S) -> (r: Comparison<S>)
    requires
        got@.len() == want@.len(),
    ensures
        r.mismatches == count_far(got@, want@, *tolerance, got@.len()),
        r.farthest == farthest_of(got@, want@, got@.len()),
{
    let mut mismatches: usize = 0;
    let mut farthest = S::constant(Constant::Zero);
    for i in 0..got.len()
        invariant
            got@.len() == want@.len(),
            mismatches <= i,
            mismatches == count_far(got@, want@, *tolerance, i as nat),
            farthest == farthest_of(got@, want@, i as nat),
    {
        let d = measure(&got[i], &want[i]);
        if d.exceeds(tolerance) {
            mismatches += 1;
        }
        if d.exceeds(&farthest) {
            farthest = d;
        }
    }
    Comparison { mismatches, farthest }
}

/// An element is too far off: relative to what is expected, and absolutely.
pub open spec fn too_far<S: Scalar>(got: S, want: S, tiny: S, relative: S, tolerance: S) -> bool {
    above(relative_distance(got, want, tiny), relative) && above(distance(got, want), tolerance)
}

/// How many of the first `n` elements are too far off.
pub open spec fn count_too_far<S: Scalar>(
    got: Seq<S>,
    want: Seq<S>,
    tiny: S,
    relative: S,
    tolerance: S,
    n: nat,
) -> nat
    decreases n,
{
    if n == 0 {
        0
    } else {
        count_too_far(got, want, tiny, relative, tolerance, (n - 1) as nat) + if too_far(
            got[n - 1],
            want[n - 1],
            tiny,
            relative,
            tolerance,
        ) {
            1nat
        } else {
            0nat
        }
    }
}

/// How far off the farthest of the first `n` elements is, relative to what is expected.
pub open spec fn farthest_relative<S: Scalar>(got: Seq<S>, want: Seq<S>, tiny: S, n: nat) -> S
    decreases n,
{
    if n == 0 {
        zero()
    } else {
        let before = farthest_relative(got, want, tiny, (n - 1) as nat);
        let d = relative_distance(got[n - 1], want[n - 1], tiny);
        if above(d, before) {
            d
        } else {
            before
        }
    }
}

/// Compares results with what is expected, relative to the size of each element. An element
/// counts only if it is also absolutely too far off.
pub fn compare_relative<S: Scalar>(
    got: &Vec<S>,
    want: &Vec<S>,
    tiny: &S,
    relative: &S,
    tolerance: &S,
) -> (r: Comparison<S>)
    requires
        got@.len() == want@.len(),
    ensures
        r.mismatches == count_too_far(got@, want@, *tiny, *relative, *tolerance, got@.len()),
        r.farthest == farthest_relative(got@, want@, *tiny, got@.len()),
{
    let mut mismatches: usize = 0;
    let mut farthest = S::constant(Constant::Zero);
    for i in 0..got.len()
        invariant
            got@.len() == want@.len(),
            mismatches <= i,
            mismatches == count_too_far(got@, want@, *tiny, *relative, *tolerance, i as nat),
            farthest == farthest_relative(got@, want@, *tiny, i as nat),
    {
        let d = measure_relative(&got[i], &want[i], tiny);
        if d.exceeds(relative) && measure(&got[i], &want[i]).exceeds(tolerance) {
            mismatches += 1;
        }
        if d.exceeds(&farthest) {
            farthest = d;
        }
    }
    Comparison { mismatches, farthest }
}

/// All elements are nearer to what is expected than `tolerance`.
pub open spec fn all_near<S: Scalar>(got: Seq<S>, want: Seq<S>, tolerance: S) -> bool {
    forall|i: int|
        0 <= i < got.len() ==> above(tolerance, distance(#[trigger] got[i], want[i]))
}

/// Whether all elements are near to what is expected.
pub fn within<S: Scalar>(got: &Vec<S>, want: &Vec<S>, tolerance: &S) -> (r: bool)
    requires
        got@.len() == want@.len(),
    ensures
        r == all_near(got@, want@, *tolerance),
{
    for i in 0..got.len()
        invariant
            got@.len() == want@.len(),
            forall|j: int|
                0 <= j < i ==> above(*tolerance, distance(#[trigger] got@[j], want@[j])),
    {
        if !tolerance.exceeds(&measure(&got[i], &want[i])) {
            return false;
        }
    }
    true
}

/// Adds elements up.
pub fn add_elements<S: Scalar>(x: &Vec<S>, start: usize, n: usize) -> (r: S)
    requires
        start + n <= x@.len(),
    ensures
        r == range_sum(x@, start as int, n as nat),
{
    let size: usize = x.len();
    let mut r = S::constant(Constant::Zero);
    for i in 0..n
        invariant
            size == x@.len(),
            start + n <= size,
            r == range_sum(x@, start as int, i as nat),
    {
        r = r.plus(&x[start + i]);
    }
    r
}

/// The elements do not descend anywhere.
pub open spec fn never_descends<S: Scalar>(x: Seq<S>) -> bool {
    forall|i: int| 1 <= i < x.len() ==> !above(x[i - 1], #[trigger] x[i])
}

/// Whether the elements descend nowhere.
pub fn is_ascending<S: Scalar>(x: &Vec<S>) -> (r: bool)
    ensures
        r == never_descends(x@),
{
    let mut i: usize = 1;
    while i < x.len()
        invariant
            1 <= i,
            forall|j: int| 1 <= j < i && j < x@.len() ==> !above(x@[j - 1], #[trigger] x@[j]),
        decreases x@.len() - i,
    {
        if x[i - 1].exceeds(&x[i]) {
            assert(above(x@[i - 1], x@[i as int]));
            return false;
        }
        i += 1;
    }
    true
}

/// The place of the greatest of the first `n` elements, the last such place.
pub open spec fn greatest_place<S: Scalar>(x: Seq<S>, n: nat) -> int
    decreases n,
{
    if n <= 1 {
        0
    } else {
        let before = greatest_place(x, (n - 1) as nat);
        if above(x[before], x[n - 1]) {
            before
        } else {
            n - 1
        }
    }
}

/// The place of the greatest element.
pub fn find_greatest<S: Scalar>(x: &Vec<S>) -> (r: usize)
    requires
        x@.len() > 0,
        forall|i: int| 0 <= i < x@.len() ==> S::rank(#[trigger] x@[i]) is Some,
    ensures
        r == greatest_place(x@, x@.len()),
        r < x@.len(),
{
    let mut best: usize = 0;
    for i in 1..x.len()
        invariant
            1 <= i,
            best < i,
            x@.len() > 0,
            i <= x@.len(),
            best == greatest_place(x@, i as nat),
    {
        if !x[best].exceeds(&x[i]) {
            best = i;
        }
    }
    best
}

proof fn lemma_greatest<S: Scalar>(x: Seq<S>, n: nat)
    requires
        1 <= n <= x.len(),
        forall|i: int| 0 <= i < x.len() ==> S::rank(#[trigger] x[i]) is Some,
    ensures
        0 <= greatest_place(x, n) < n,
        forall|i: int|
            0 <= i < n ==> !above(#[trigger] x[i], x[greatest_place(x, n)]),
    decreases n,
{
    if n > 1 {
        lemma_greatest(x, (n - 1) as nat);
    }
}

/// Nothing is greater than the greatest element.
pub proof fn greatest_is_greatest<S: Scalar>(x: Seq<S>, i: int)
    requires
        0 <= i < x.len(),
        forall|j: int| 0 <= j < x.len() ==> S::rank(#[trigger] x[j]) is Some,
    ensures
        0 <= greatest_place(x, x.len()) < x.len(),
        !above(x[i], x[greatest_place(x, x.len())]),
{
    lemma_greatest(x, x.len());
}

/// What is made of a softmax of ascending numbers: whether it adds up to one, whether it
/// ascends, and where it is greatest.
pub fn check_softmax<S: Scalar>(output: &Vec<S>, tolerance: &S) -> (r: (bool, bool, usize))
    requires
        output@.len() > 0,
        forall|i: int| 0 <= i < output@.len() ==> S::rank(#[trigger] output@[i]) is Some,
    ensures
        r.0 == above(
            *tolerance,
            distance(
                range_sum(output@, 0, output@.len()),
                S::constant_value(Constant::One),
            ),
        ),
        r.1 == never_descends(output@),
        r.2 == greatest_place(output@, output@.len()),
{
    let sum = add_elements(output, 0, output.len());
    let sum_ok: bool = tolerance.exceeds(&measure(&sum, &S::constant(Constant::One)));
    (sum_ok, is_ascending(output), find_greatest(output))
}

/// All rows add up to one, nearly.
pub open spec fn rows_add_up<S: Scalar>(x: Seq<S>, rows: int, cols: nat, tolerance: S) -> bool {
    forall|r: int|
        0 <= r < rows ==> !above(
            distance(#[trigger] range_sum(x, r * cols, cols), S::constant_value(Constant::One)),
            tolerance,
        )
}

/// Whether all rows add up to one.
pub fn check_row_sums<S: Scalar>(x: &Vec<S>, rows: usize, cols: usize, tolerance: &S) -> (r: bool)
    requires
        rows * cols <= x@.len(),
    ensures
        r == rows_add_up(x@, rows as int, cols as nat, *tolerance),
{
    let size: usize = x.len();
    for row in 0..rows
        invariant
            size == x@.len(),
            rows * cols <= size,
            forall|q: int|
                0 <= q < row ==> !above(
                    distance(
                        #[trigger] range_sum(x@, q * cols, cols as nat),
                        S::constant_value(Constant::One),
                    ),
                    *tolerance,
                ),
    {
        proof {
            if cols > 0 {
                lemma_cell(row as int, rows as int, 0, cols as int);
            } else {
                assert(row * cols == 0) by (nonlinear_arith)
                    requires
                        cols == 0,
                ;
            }
        }
        let sum = add_elements(x, row * cols, cols);
        if measure(&sum, &S::constant(Constant::One)).exceeds(tolerance) {
            assert(above(
                distance(
                    range_sum(x@, row * cols, cols as nat),
                    S::constant_value(Constant::One),
                ),
                *tolerance,
            ));
            return false;
        }
    }
    true
}

} // verus!
