//! Laws of generation and of what is made of results.

use vstd::prelude::*;

use crate::agreement::{
    exact_softmax, inverses_exist, lemma_range_max, lemma_sum_factor, quotients_are_products,
};
use crate::exact::{exact_ring, lemma_regroup_product};
use crate::inference::generate::{generated_by, stopped_by, token_budget, Next, Prediction};
use crate::inference::prepare::padded_tokens;
use crate::inference::verdict::{
    count_infinite, count_nan, elements_are_classified, greatest_row, magnitude, matrix_row,
    max_magnitude, probabilities_of, row_verdict_of, rows_beyond_half, rows_with_nan, verdict_of,
};
use crate::kernels::online::{counts, exact_exponential, exp_of, exponentials_chain};
use crate::kernels::reduce::range_sum;
use crate::model::weights::VOCAB_SIZE;
use crate::reference::range_max;
use crate::scalar::{above, one, zero, Scalar};

verus! {

/// A prediction that stops the generation: one from a row that is not finite, or of the end of
/// the text, which is the last token of the vocabulary.
pub open spec fn stops(p: Prediction) -> bool {
    p.nan_count > 0 || p.best_token == VOCAB_SIZE - 1
}

/// The generated tokens are those of the predictions, in their order, as many as were allowed
/// or as there are before the first prediction that stops; and what is reported is why there
/// are no more.
pub proof fn generation_takes_predictions_in_order(predictions: Seq<Prediction>, budget: nat)
    ensures
        generated_by(predictions, budget).len() <= budget,
        generated_by(predictions, budget).len() <= predictions.len(),
        forall|i: int|
            0 <= i < generated_by(predictions, budget).len() ==> {
                &&& #[trigger] generated_by(predictions, budget)[i] == predictions[i].best_token
                &&& !stops(predictions[i])
            },
        generated_by(predictions, budget).len() < budget && generated_by(predictions, budget).len()
            < predictions.len() ==> stops(
            predictions[generated_by(predictions, budget).len() as int],
        ),
        ({
            let n = generated_by(predictions, budget).len() as int;
            stopped_by(predictions, budget) == if n == budget {
                Next::StopFull
            } else if n == predictions.len() {
                Next::Continue
            } else if predictions[n].nan_count > 0 {
                Next::StopNan
            } else {
                Next::StopEndOfText
            }
        }),
    decreases budget,
{
    if !(budget == 0 || predictions.len() == 0 || stops(predictions[0])) {
        let rest = predictions.skip(1);
        let text = generated_by(predictions, budget);
        let tail = generated_by(rest, (budget - 1) as nat);
        generation_takes_predictions_in_order(rest, (budget - 1) as nat);
        assert(text == seq![predictions[0].best_token] + tail);
        assert forall|i: int| 0 <= i < text.len() implies #[trigger] text[i]
            == predictions[i].best_token && !stops(predictions[i]) by {
            if i > 0 {
                assert(text[i] == tail[i - 1]);
                assert(rest[i - 1] == predictions[i]);
            }
        }
        let n = tail.len() as int;
        assert(text.len() == n + 1);
        assert(stopped_by(predictions, budget) == stopped_by(rest, (budget - 1) as nat));
        if n < rest.len() {
            assert(rest[n] == predictions[n + 1]);
        }
    } else {
        assert(generated_by(predictions, budget).len() == 0);
    }
}

/// A prompt and what follows it fit into 128 rows. Fifty tokens may follow, or as many as
/// there are rows left.
pub proof fn budgets_fill_the_rows(prompt_len: int)
    requires
        0 <= prompt_len <= 128,
    ensures
        0 <= token_budget(prompt_len) <= 50,
        prompt_len + token_budget(prompt_len) <= 128,
        token_budget(prompt_len) == 50 || prompt_len + token_budget(prompt_len) == 128,
{
}

/// Tokens that are filled up keep their places, and what fills them up is token zero.
pub proof fn padding_keeps_the_tokens(tokens: Seq<u32>, seq: nat)
    requires
        tokens.len() <= seq,
    ensures
        padded_tokens(tokens, seq).len() == seq,
        padded_tokens(tokens, seq).take(tokens.len() as int) == tokens,
        forall|i: int| tokens.len() <= i < seq ==> #[trigger] padded_tokens(tokens, seq)[i] == 0,
{
    assert(padded_tokens(tokens, seq).take(tokens.len() as int) =~= tokens);
}

/// A float with these bits is finite.
pub open spec fn is_finite(bits: u32) -> bool {
    bits % 0x8000_0000 < 0x7F80_0000
}

/// There are elements that are not numbers, or infinite ones, exactly if some are counted, and
/// the greatest magnitude is that of a finite element and exceeded by none.
pub proof fn elements_are_counted(x: Seq<u32>)
    ensures
        count_nan(x) + count_infinite(x) == 0 <==> forall|i: int|
            0 <= i < x.len() ==> is_finite(#[trigger] x[i]),
        count_nan(x) > 0 <==> exists|i: int|
            0 <= i < x.len() && #[trigger] x[i] % 0x8000_0000 > 0x7F80_0000,
        forall|i: int|
            0 <= i < x.len() && is_finite(#[trigger] x[i]) ==> x[i] % 0x8000_0000
                <= max_magnitude(x),
        max_magnitude(x) == 0 || exists|i: int|
            0 <= i < x.len() && is_finite(#[trigger] x[i]) && x[i] % 0x8000_0000
                == max_magnitude(x),
    decreases x.len(),
{
    if x.len() > 0 {
        let front = x.drop_last();
        let last = x.last();
        elements_are_counted(front);
        elements_are_classified(last);
        assert(last == x[x.len() - 1]);
        assert forall|i: int| 0 <= i < front.len() implies front[i] == #[trigger] x[i] by {}
        if count_nan(front) + count_infinite(front) != 0 {
            let i = choose|i: int| 0 <= i < front.len() && !is_finite(#[trigger] front[i]);
            assert(!is_finite(x[i]));
        }
        if count_nan(front) > 0 {
            let i = choose|i: int|
                0 <= i < front.len() && #[trigger] front[i] % 0x8000_0000 > 0x7F80_0000;
            assert(x[i] % 0x8000_0000 > 0x7F80_0000);
        }
        if max_magnitude(front) != 0 {
            let i = choose|i: int|
                0 <= i < front.len() && is_finite(#[trigger] front[i]) && front[i] % 0x8000_0000
                    == max_magnitude(front);
            assert(is_finite(x[i]) && x[i] % 0x8000_0000 == max_magnitude(front));
        }
        if count_nan(x) + count_infinite(x) == 0 {
            assert forall|i: int| 0 <= i < x.len() implies is_finite(#[trigger] x[i]) by {
                if i < front.len() {
                    assert(is_finite(front[i]));
                }
            }
        }
        assert forall|i: int| 0 <= i < x.len() && is_finite(#[trigger] x[i]) implies x[i]
            % 0x8000_0000 <= max_magnitude(x) by {
            if i < front.len() {
                assert(is_finite(front[i]));
            }
        }
    }
}

/// Counts of two stretches add up to that of both.
pub proof fn counts_of_stretches_add_up(x: Seq<u32>, y: Seq<u32>)
    ensures
        count_nan(x + y) == count_nan(x) + count_nan(y),
        count_infinite(x + y) == count_infinite(x) + count_infinite(y),
    decreases y.len(),
{
    if y.len() > 0 {
        counts_of_stretches_add_up(x, y.drop_last());
        assert((x + y).drop_last() =~= x + y.drop_last());
    } else {
        assert(x + y =~= x);
    }
}

/// A result is found sound exactly if its last row is finite and no finite element of any row
/// exceeds 1000, whose bits are 0x447A0000.
pub proof fn sound_results_are_finite_and_small(output: Seq<u32>, actual: int, dim: int)
    requires
        0 < actual,
        0 <= dim,
        actual * dim <= output.len(),
    ensures
        verdict_of(output, actual, dim) is Sound <==> {
            &&& forall|i: int|
                (actual - 1) * dim <= i < actual * dim ==> is_finite(#[trigger] output[i])
            &&& forall|i: int|
                0 <= i < actual * dim && is_finite(#[trigger] output[i]) ==> output[i]
                    % 0x8000_0000 <= 0x447A_0000
        },
        verdict_of(output, actual, dim) is NotFinite <==> !(forall|i: int|
            (actual - 1) * dim <= i < actual * dim ==> is_finite(#[trigger] output[i])),
        row_verdict_of(output, actual, dim) is Sound <==> forall|i: int|
            (actual - 1) * dim <= i < actual * dim ==> is_finite(#[trigger] output[i]),
{
    let (start, end) = ((actual - 1) * dim, actual * dim);
    assert(0 <= start && start + dim == end) by (nonlinear_arith)
        requires
            0 < actual,
            0 <= dim,
            start == (actual - 1) * dim,
            end == actual * dim,
    ;
    let last = output.subrange(start, end);
    let all = output.subrange(0, end);
    elements_are_counted(last);
    elements_are_counted(all);
    let finite = forall|i: int| start <= i < end ==> is_finite(#[trigger] output[i]);
    assert((forall|i: int| 0 <= i < last.len() ==> is_finite(#[trigger] last[i])) == finite) by {
        if finite {
            assert forall|i: int| 0 <= i < last.len() implies is_finite(#[trigger] last[i]) by {
                assert(last[i] == output[start + i]);
            }
        }
        if forall|i: int| 0 <= i < last.len() ==> is_finite(#[trigger] last[i]) {
            assert forall|i: int| start <= i < end implies is_finite(#[trigger] output[i]) by {
                assert(last[i - start] == output[i]);
            }
        }
    }
    assert forall|i: int| 0 <= i < end implies #[trigger] output[i] == all[i] by {}
    if max_magnitude(all) > 0x447A_0000 {
        let i = choose|i: int|
            0 <= i < all.len() && is_finite(#[trigger] all[i]) && all[i] % 0x8000_0000
                == max_magnitude(all);
        assert(output[i] == all[i]);
    }
}

/// A layer's report names exactly the rows that hold an element that is not a number, and
/// exactly those with a finite element beyond 65504, whose bits are 0x477FE000.
pub proof fn reports_name_the_bad_rows(x: Seq<u32>, dim: int, n: nat, r: usize)
    requires
        0 <= dim,
        n * dim <= x.len(),
        n <= usize::MAX,
    ensures
        rows_with_nan(x, dim, n).contains(r) <==> r < n && exists|c: int|
            r * dim <= c < r * dim + dim && #[trigger] x[c] % 0x8000_0000 > 0x7F80_0000,
        rows_beyond_half(x, dim, n).contains(r) <==> r < n && exists|c: int|
            r * dim <= c < r * dim + dim && is_finite(#[trigger] x[c]) && x[c] % 0x8000_0000
                > 0x477F_E000,
    decreases n,
{
    if n > 0 {
        let m = (n - 1) as nat;
        assert(m * dim + dim == n * dim && 0 <= m * dim) by (nonlinear_arith)
            requires
                n == m + 1,
                0 <= dim,
                0 <= m,
        ;
        reports_name_the_bad_rows(x, dim, m, r);
        let row = matrix_row(x, n - 1, dim);
        elements_are_counted(row);
        let start = (n - 1) * dim;
        assert forall|c: int| start <= c < start + dim implies #[trigger] x[c] == row[c - start] by {}
        lemma_pushed(rows_with_nan(x, dim, m), m as usize, r);
        lemma_pushed(rows_beyond_half(x, dim, m), m as usize, r);
        if count_nan(row) > 0 {
            let i = choose|i: int|
                0 <= i < row.len() && #[trigger] row[i] % 0x8000_0000 > 0x7F80_0000;
            assert(x[start + i] == row[i]);
        }
        if max_magnitude(row) > 0x477F_E000 {
            let i = choose|i: int|
                0 <= i < row.len() && is_finite(#[trigger] row[i]) && row[i] % 0x8000_0000
                    == max_magnitude(row);
            assert(x[start + i] == row[i]);
        }
    }
}

proof fn lemma_pushed(s: Seq<usize>, a: usize, b: usize)
    ensures
        s.push(a).contains(b) <==> s.contains(b) || a == b,
{
    if s.contains(b) {
        let i = choose|i: int| 0 <= i < s.len() && s[i] == b;
        assert(s.push(a)[i] == b);
    }
    assert(s.push(a)[s.len() as int] == a);
}

/// The greatest magnitude of a report is exceeded by no finite element of the rows, and is that
/// of one of them.
pub proof fn reports_tell_the_greatest_magnitude(x: Seq<u32>, dim: int, n: nat)
    requires
        0 <= dim,
        n * dim <= x.len(),
    ensures
        forall|c: int|
            0 <= c < n * dim && is_finite(#[trigger] x[c]) ==> x[c] % 0x8000_0000 <= greatest_row(
                x,
                dim,
                n,
            ),
        greatest_row(x, dim, n) == 0 || exists|c: int|
            0 <= c < n * dim && is_finite(#[trigger] x[c]) && x[c] % 0x8000_0000 == greatest_row(
                x,
                dim,
                n,
            ),
    decreases n,
{
    if n > 0 {
        let m = (n - 1) as nat;
        assert(m * dim + dim == n * dim && 0 <= m * dim) by (nonlinear_arith)
            requires
                n == m + 1,
                0 <= dim,
                0 <= m,
        ;
        reports_tell_the_greatest_magnitude(x, dim, m);
        let row = matrix_row(x, n - 1, dim);
        elements_are_counted(row);
        let start = (n - 1) * dim;
        assert forall|c: int| 0 <= c < n * dim && is_finite(#[trigger] x[c]) implies x[c]
            % 0x8000_0000 <= greatest_row(x, dim, n) by {
            if c >= start {
                assert(row[c - start] == x[c]);
            }
        }
        if max_magnitude(row) != 0 {
            let i = choose|i: int|
                0 <= i < row.len() && is_finite(#[trigger] row[i]) && row[i] % 0x8000_0000
                    == max_magnitude(row);
            assert(x[start + i] == row[i]);
        }
    } else {
        assert(n * dim == 0) by (nonlinear_arith)
            requires
                n == 0,
        ;
    }
}

/// In exact arithmetic, probabilities add up to one, and two of them differ by the exponential
/// of the difference of their scores.
pub proof fn probabilities_follow_the_scores<S: Scalar>(logits: Seq<S>, a: int, b: int)
    requires
        exact_ring::<S>(),
        exact_exponential::<S>(),
        exact_softmax::<S>(),
        inverses_exist::<S>(),
        0 <= a < logits.len(),
        0 <= b < logits.len(),
        counts(logits[0]),
        counts(logits[a]),
        above(
            range_sum(
                Seq::new(
                    logits.len(),
                    |i: int| exp_of(logits[i], range_max(logits, 0, logits.len())),
                ),
                0,
                logits.len(),
            ),
            zero::<S>(),
        ),
    ensures
        range_sum(probabilities_of(logits), 0, logits.len()) == one::<S>(),
        S::product(exp_of(logits[b], logits[a]), probabilities_of(logits)[a])
            == probabilities_of(logits)[b],
{
    let n = logits.len();
    let max = range_max(logits, 0, n);
    let e = Seq::new(n, |i: int| S::exponential(S::difference(logits[i], max)));
    assert(e =~= Seq::new(n, |i: int| exp_of(logits[i], max)));
    let total = range_sum(e, 0, n);
    let inv = S::quotient(one(), total);
    let p = probabilities_of(logits);
    reveal(quotients_are_products);
    assert forall|j: int| 0 <= j < n implies #[trigger] p[j] == S::product(e[j], inv) by {
        assert(p[j] == S::quotient(e[j], total));
    }
    lemma_sum_factor(e, p, inv, n);
    reveal(inverses_exist);
    lemma_range_max(logits, 0, n);
    reveal(exponentials_chain);
    let f = exp_of(logits[b], logits[a]);
    assert(S::product(f, exp_of(logits[a], max)) == exp_of(logits[b], max));
    lemma_regroup_product(f, e[a], inv);
}

} // verus!
