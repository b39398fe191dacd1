//! Attention kernels.
//!
//! Queries, keys and values are head-major: `[head][position][d_head]`. Position
//! `i` may attend to position `j` only if `j <= i` when the causal mask is on.

use vstd::prelude::*;

use crate::kernels::elementwise::{count_block, counted};
use crate::kernels::reduce::{picked, range_sum};
use crate::scalar::{above, one, zero, Constant, Scalar};
use crate::tensor::{dot, dot_product};

verus! {

/// `n` elements from `at` on.
pub open spec fn row<S>(x: Seq<S>, at: int, n: int) -> Seq<S> {
    x.subrange(at, at + n)
}

/// Copies `n` elements from `at` on.
pub fn copy_row<S: Scalar>(x: &Vec<S>, at: usize, n: usize) -> (r: Vec<S>)
    requires
        at + n <= x@.len(),
    ensures
        r@ == row(x@, at as int, n as int),
{
    let size: usize = x.len();
    let mut r: Vec<S> = Vec::new();
    for i in 0..n
        invariant
            size == x@.len(),
            at + n <= size,
            r@ == row(x@, at as int, i as int),
    {
        r.push(x[at + i].dup());
    }
    r
}

/// The factor `1 / sqrt(d_head)` of a score.
pub open spec fn score_scale<S: Scalar>(d_head: nat) -> S {
    S::quotient(one(), S::root(S::count_value(d_head)))
}

/// The score of a masked position.
pub open spec fn masked<S: Scalar>() -> S {
    S::constant_value(Constant::Masked)
}

/// The score of the query in row `i` for the key in row `j` of a head that starts at
/// `base`.
pub open spec fn score<S: Scalar>(
    q: Seq<S>,
    k: Seq<S>,
    base: int,
    d_head: int,
    causal: bool,
    i: int,
    j: int,
) -> S {
    if causal && j > i {
        masked()
    } else {
        S::product(
            dot(
                row(q, base + i * d_head, d_head),
                row(k, base + j * d_head, d_head),
                d_head as nat,
            ),
            score_scale(d_head as nat),
        )
    }
}

/// The greatest of the first `n` elements, as a running comparison finds it.
pub open spec fn running_max<S: Scalar>(x: Seq<S>, n: nat) -> S
    decreases n,
{
    if n <= 1 {
        x[0]
    } else {
        picked(running_max(x, (n - 1) as nat), x[n - 1])
    }
}

/// The elements' exponentials relative to `max`.
pub open spec fn exponentials<S: Scalar>(x: Seq<S>, max: S) -> Seq<S> {
    Seq::new(x.len(), |j: int| S::exponential(S::difference(x[j], max)))
}

/// The attention weights for a row of scores.
pub open spec fn weights<S: Scalar>(scores: Seq<S>) -> Seq<S> {
    let e = exponentials(scores, running_max(scores, scores.len()));
    let inv = S::quotient(one(), range_sum(e, 0, e.len()));
    Seq::new(scores.len(), |j: int| S::product(e[j], inv))
}

/// Component `d` of the values of `n` positions of a head that starts at `base`.
pub open spec fn component<S: Scalar>(v: Seq<S>, base: int, d_head: int, d: int, n: nat) -> Seq<S> {
    Seq::new(n, |j: int| v[base + j * d_head + d])
}

/// The scores of one query.
pub open spec fn score_row<S: Scalar>(
    q: Seq<S>,
    k: Seq<S>,
    base: int,
    seq_len: nat,
    d_head: int,
    causal: bool,
    i: int,
) -> Seq<S> {
    Seq::new(seq_len, |j: int| score(q, k, base, d_head, causal, i, j))
}

/// Component `d` of the attention of the query in row `i`.
pub open spec fn attended<S: Scalar>(
    q: Seq<S>,
    k: Seq<S>,
    v: Seq<S>,
    base: int,
    seq_len: nat,
    d_head: int,
    causal: bool,
    i: int,
    d: int,
) -> S {
    dot(
        weights(score_row(q, k, base, seq_len, d_head, causal, i)),
        component(v, base, d_head, d, seq_len),
        seq_len,
    )
}

proof fn lemma_head_bounds(heads: int, seq_len: int, d_head: int, i: int, d: int)
    requires
        0 <= heads,
        0 <= i < seq_len,
        0 <= d < d_head,
    ensures
        0 <= heads * seq_len,
        heads * seq_len <= heads * seq_len * d_head,
        0 <= i * d_head,
        i * d_head + d < seq_len * d_head,
        i * d_head + d_head <= seq_len * d_head,
        heads * seq_len * d_head + seq_len * d_head == (heads + 1) * seq_len * d_head,
{
    assert(0 <= heads * seq_len && heads * seq_len <= heads * seq_len * d_head && 0 <= i * d_head && i
        * d_head + d_head <= seq_len * d_head && heads * seq_len * d_head + seq_len * d_head == (heads
        + 1) * seq_len * d_head) by (nonlinear_arith)
        requires
            0 <= heads,
            0 <= i < seq_len,
            0 <= d < d_head,
    ;
}

/// Attention of one query position over one head: thread `tid` of the block for
/// `head` handles row `tid`, and threads beyond the sequence do nothing.
pub fn attention_head<S: Scalar>(
    head: u32,
    tid: u32,
    q: &Vec<S>,
    k: &Vec<S>,
    v: &Vec<S>,
    out: &mut Vec<S>,
    seq_len: u32,
    d_head: u32,
    causal_mask: u32,
    status: &mut u32,
)
    requires
        d_head > 0,
        (head + 1) * seq_len * d_head <= u32::MAX,
        (head + 1) * seq_len * d_head <= q@.len(),
        (head + 1) * seq_len * d_head <= k@.len(),
        (head + 1) * seq_len * d_head <= v@.len(),
        (head + 1) * seq_len * d_head <= old(out)@.len(),
    ensures
        final(out)@.len() == old(out)@.len(),
        forall|x: int|
            0 <= x < old(out)@.len() ==> #[trigger] final(out)@[x] == {
                let base = head * seq_len * d_head;
                let first = base + tid * d_head;
                if tid < seq_len && first <= x < first + d_head {
                    attended(
                        q@,
                        k@,
                        v@,
                        base,
                        seq_len as nat,
                        d_head as int,
                        causal_mask != 0,
                        tid as int,
                        x - first,
                    )
                } else {
                    old(out)@[x]
                }
            },
        *final(status) == if tid < seq_len {
            counted(*old(status), tid)
        } else {
            *old(status)
        },
{
    if tid >= seq_len {
        return;
    }
    proof {
        lemma_head_bounds(head as int, seq_len as int, d_head as int, tid as int, 0);
    }
    let base: usize = (head * seq_len * d_head) as usize;
    let n: usize = seq_len as usize;
    let dh: usize = d_head as usize;
    let me: usize = tid as usize;
    let causal: bool = causal_mask != 0;
    let ghost before = out@;
    let k_size: usize = k.len();
    let q_row: Vec<S> = copy_row(q, base + me * dh, dh);
    let scale = S::constant(Constant::One).over(&S::from_count(dh).sqrt());
    let mut scores: Vec<S> = Vec::new();
    let ghost all = score_row(q@, k@, base as int, n as nat, dh as int, causal, me as int);
    for j in 0..n
        invariant
            k_size == k@.len(),
            base + n * dh <= k_size,
            dh > 0,
            me < n,
            q_row@ == row(q@, base + me * dh, dh as int),
            q_row@.len() == dh,
            scale == score_scale::<S>(dh as nat),
            all == score_row(q@, k@, base as int, n as nat, dh as int, causal, me as int),
            scores@ == all.take(j as int),
    {
        if causal && j > me {
            scores.push(S::constant(Constant::Masked));
        } else {
            proof {
                lemma_head_bounds(0, n as int, dh as int, j as int, 0);
            }
            let k_row: Vec<S> = copy_row(k, base + j * dh, dh);
            scores.push(dot_product(&q_row, &k_row, dh).times(&scale));
        }
    }
    assert(scores@ =~= all);
    let mut max_val = scores[0].dup();
    for j in 1..n
        invariant
            scores@ == all,
            all.len() == n,
            max_val == running_max(all, j as nat),
    {
        if scores[j].exceeds(&max_val) {
            max_val = scores[j].dup();
        }
    }
    let mut exps: Vec<S> = Vec::new();
    let mut sum_exp = S::constant(Constant::Zero);
    let ghost e = exponentials(all, running_max(all, all.len()));
    for j in 0..n
        invariant
            scores@ == all,
            all.len() == n,
            max_val == running_max(all, all.len()),
            e == exponentials(all, running_max(all, all.len())),
            exps@ == e.take(j as int),
            sum_exp == range_sum(e, 0, j as nat),
    {
        let x = scores[j].minus(&max_val).exp();
        sum_exp = sum_exp.plus(&x);
        exps.push(x);
    }
    let inv_sum = S::constant(Constant::One).over(&sum_exp);
    let mut shares: Vec<S> = Vec::new();
    for j in 0..n
        invariant
            exps@ == e,
            e.len() == n,
            e == exponentials(all, running_max(all, all.len())),
            all.len() == n,
            inv_sum == S::quotient(one(), range_sum(e, 0, e.len())),
            shares@ == weights(all).take(j as int),
    {
        shares.push(exps[j].times(&inv_sum));
    }
    assert(shares@ =~= weights(all));
    let first: usize = base + me * dh;
    let v_size: usize = v.len();
    let out_size: usize = out.len();
    for d in 0..dh
        invariant
            v_size == v@.len(),
            base + n * dh <= v_size,
            me < n,
            first == base + me * dh,
            out_size == before.len(),
            first + dh <= out_size,
            shares@ == weights(all),
            all.len() == n,
            all == score_row(q@, k@, base as int, n as nat, dh as int, causal, me as int),
            out@.len() == before.len(),
            forall|x: int|
                0 <= x < before.len() ==> #[trigger] out@[x] == if first <= x < first + d {
                    attended(
                        q@,
                        k@,
                        v@,
                        base as int,
                        n as nat,
                        dh as int,
                        causal,
                        me as int,
                        x - first,
                    )
                } else {
                    before[x]
                },
    {
        let mut acc = S::constant(Constant::Zero);
        for j in 0..n
            invariant
                v_size == v@.len(),
                base + n * dh <= v_size,
                0 <= d < dh,
                shares@.len() == n,
                acc == dot(
                    shares@,
                    component(v@, base as int, dh as int, d as int, n as nat),
                    j as nat,
                ),
        {
            proof {
                lemma_head_bounds(0, n as int, dh as int, j as int, d as int);
            }
            acc = acc.plus(&shares[j].times(&v[base + j * dh + d]));
        }
        out.set(first + d, acc);
    }
    count_block(status, tid);
}

/// What a thread of the tiled kernel keeps of the tiles it has seen.
#[derive(Debug, PartialEq, Eq)]
pub struct RowState<S> {
    /// The running maximum of the scores.
    pub m: S,
    /// The running sum of the exponentials relative to it.
    pub l: S,
    /// The sum of the values, weighted by the exponentials.
    pub acc: Vec<S>,
}

/// The value of a row state.
#[verifier::ext_equal]
pub struct RowView<S> {
    pub m: S,
    pub l: S,
    pub acc: Seq<S>,
}

impl<S> View for RowState<S> {
    type V = RowView<S>;

    open spec fn view(&self) -> RowView<S> {
        RowView { m: self.m, l: self.l, acc: self.acc@ }
    }
}

/// A row before its first tile.
pub open spec fn fresh_row<S: Scalar>(d_head: nat) -> RowView<S> {
    RowView { m: masked(), l: zero(), acc: Seq::new(d_head, |d: int| zero()) }
}

/// The number of key positions in the tile from `start` on.
pub open spec fn tile_size(start: int, seq_len: int) -> int {
    if start + 32 <= seq_len {
        32
    } else {
        seq_len - start
    }
}

/// The scores of a query for the positions of a tile.
pub open spec fn tile_scores<S: Scalar>(
    q: Seq<S>,
    k: Seq<S>,
    base: int,
    seq_len: int,
    d_head: int,
    causal: bool,
    i: int,
    start: int,
) -> Seq<S> {
    Seq::new(
        tile_size(start, seq_len) as nat,
        |c: int| score(q, k, base, d_head, causal, i, start + c),
    )
}

/// The greatest of the first `n` scores of a tile that are not masked.
pub open spec fn tile_max<S: Scalar>(
    scores: Seq<S>,
    causal: bool,
    i: int,
    start: int,
    n: nat,
) -> S
    decreases n,
{
    if n == 0 {
        masked()
    } else {
        let before = tile_max(scores, causal, i, start, (n - 1) as nat);
        if causal && start + n - 1 > i {
            before
        } else {
            picked(before, scores[n - 1])
        }
    }
}

/// A weighted sum to which the first `n` terms with a positive weight were added.
pub open spec fn accumulated<S: Scalar>(start: S, p: Seq<S>, v: Seq<S>, n: nat) -> S
    decreases n,
{
    if n == 0 {
        start
    } else {
        let before = accumulated(start, p, v, (n - 1) as nat);
        if above(p[n - 1], zero()) {
            S::sum(before, S::product(p[n - 1], v[n - 1]))
        } else {
            before
        }
    }
}

/// A row after one more tile with these scores.
pub open spec fn row_updated<S: Scalar>(
    state: RowView<S>,
    scores: Seq<S>,
    v: Seq<S>,
    base: int,
    d_head: int,
    causal: bool,
    i: int,
    start: int,
) -> RowView<S> {
    let m = picked(state.m, tile_max(scores, causal, i, start, scores.len()));
    let p = exponentials(scores, m);
    let correction = S::exponential(S::difference(state.m, m));
    RowView {
        m,
        l: S::sum(S::product(state.l, correction), range_sum(p, 0, p.len())),
        acc: Seq::new(
            d_head as nat,
            |d: int|
                accumulated(
                    S::product(state.acc[d], correction),
                    p,
                    component(v, base + start * d_head, d_head, d, scores.len()),
                    scores.len(),
                ),
        ),
    }
}

/// A row after `t` tiles.
pub open spec fn flash_row<S: Scalar>(
    q: Seq<S>,
    k: Seq<S>,
    v: Seq<S>,
    base: int,
    seq_len: int,
    d_head: int,
    causal: bool,
    i: int,
    t: nat,
) -> RowView<S>
    decreases t,
{
    if t == 0 {
        fresh_row(d_head as nat)
    } else {
        let start = 32 * (t - 1);
        row_updated(
            flash_row(q, k, v, base, seq_len, d_head, causal, i, (t - 1) as nat),
            tile_scores(q, k, base, seq_len, d_head, causal, i, start),
            v,
            base,
            d_head,
            causal,
            i,
            start,
        )
    }
}

/// How many tiles the block for a tile of queries looks at: all of them, or with the
/// causal mask those that do not lie wholly behind its last query.
pub open spec fn tiles_seen(q_tile: int, seq_len: int, causal: bool) -> nat {
    let all = (seq_len + 31) / 32;
    if causal && q_tile + 1 < all {
        (q_tile + 1) as nat
    } else {
        all as nat
    }
}

/// Component `d` of the attention of row `i`: the accumulated sum over the sum of the
/// weights.
pub open spec fn flash_value<S: Scalar>(state: RowView<S>, d: int) -> S {
    S::product(state.acc[d], S::quotient(one(), state.l))
}

/// Loads a tile of 32 rows that start at `start`, one row for each thread. Rows beyond
/// the sequence are zero.
fn load_tile<S: Scalar>(x: &Vec<S>, base: usize, seq_len: usize, d_head: usize, start: usize) -> (r:
    Vec<S>)
    requires
        0 < d_head <= 64,
        base + seq_len * d_head <= x@.len(),
        start < seq_len,
        seq_len + 31 <= u32::MAX,
    ensures
        r@.len() == 32 * d_head,
        forall|c: int, d: int|
            0 <= c < tile_size(start as int, seq_len as int) && 0 <= d < d_head ==> #[trigger] r@[c
                * d_head + d] == x@[base + (start + c) * d_head + d],
{
    let size: usize = x.len();
    let mut tile: Vec<S> = Vec::new();
    assert(0 * d_head == 0) by (nonlinear_arith);
    for tid in 0..32usize
        invariant
            size == x@.len(),
            0 < d_head <= 64,
            base + seq_len * d_head <= size,
            start < seq_len,
            seq_len + 31 <= u32::MAX,
            tile@.len() == tid * d_head,
            forall|c: int, d: int|
                0 <= c < tid && start + c < seq_len && 0 <= d < d_head ==> #[trigger] tile@[c
                    * d_head + d] == x@[base + (start + c) * d_head + d],
    {
        for d in 0..d_head
            invariant
                0 <= tid < 32,
                size == x@.len(),
                0 < d_head <= 64,
                base + seq_len * d_head <= size,
                start < seq_len,
                seq_len + 31 <= u32::MAX,
                tile@.len() == tid * d_head + d,
                forall|c: int, e: int|
                    0 <= c < tid && start + c < seq_len && 0 <= e < d_head ==> #[trigger] tile@[c
                        * d_head + e] == x@[base + (start + c) * d_head + e],
                forall|e: int|
                    start + tid < seq_len && 0 <= e < d ==> #[trigger] tile@[tid * d_head + e]
                        == x@[base + (start + tid) * d_head + e],
        {
            let ghost old_tile = tile@;
            let row_idx: usize = start + tid;
            if row_idx < seq_len {
                proof {
                    lemma_head_bounds(0, seq_len as int, d_head as int, row_idx as int, d as int);
                }
                tile.push(x[base + row_idx * d_head + d].dup());
            } else {
                tile.push(S::constant(Constant::Zero));
            }
            assert forall|c: int, e: int|
                0 <= c < tid && start + c < seq_len && 0 <= e < d_head implies #[trigger] tile@[c
                * d_head + e] == x@[base + (start + c) * d_head + e] by {
                lemma_head_bounds(0, tid as int, d_head as int, c, e);
                assert(tile@[c * d_head + e] == old_tile[c * d_head + e]);
            }
        }
        assert((tid + 1) * d_head == tid * d_head + d_head) by (nonlinear_arith);
    }
    tile
}

/// Takes one tile into a row.
fn update_row<S: Scalar>(
    state: &mut RowState<S>,
    q_row: &Vec<S>,
    k_tile: &Vec<S>,
    v_tile: &Vec<S>,
    scale: &S,
    size: usize,
    d_head: usize,
    causal: bool,
    i: usize,
    start: usize,
    Ghost(q): Ghost<Seq<S>>,
    Ghost(k): Ghost<Seq<S>>,
    Ghost(v): Ghost<Seq<S>>,
    Ghost(base): Ghost<int>,
    Ghost(seq_len): Ghost<int>,
)
    requires
        0 < d_head <= 64,
        size == tile_size(start as int, seq_len),
        0 < size <= 32,
        start + 32 <= usize::MAX,
        0 <= i < seq_len,
        0 <= base,
        base + seq_len * d_head <= k.len(),
        q_row@ == row(q, base + i * d_head, d_head as int),
        q_row@.len() == d_head,
        old(state)@.acc.len() == d_head,
        *scale == score_scale::<S>(d_head as nat),
        k_tile@.len() == 32 * d_head,
        v_tile@.len() == 32 * d_head,
        forall|c: int, d: int|
            0 <= c < size && 0 <= d < d_head ==> #[trigger] k_tile@[c * d_head + d] == k[base + (start
                + c) * d_head + d],
        forall|c: int, d: int|
            0 <= c < size && 0 <= d < d_head ==> #[trigger] v_tile@[c * d_head + d] == v[base + (start
                + c) * d_head + d],
    ensures
        final(state)@ == row_updated(
            old(state)@,
            tile_scores(q, k, base, seq_len, d_head as int, causal, i as int, start as int),
            v,
            base,
            d_head as int,
            causal,
            i as int,
            start as int,
        ),
        final(state)@.acc.len() == d_head,
{
    let ghost before = state@;
    let ghost all = tile_scores(
        q,
        k,
        base,
        seq_len,
        d_head as int,
        causal,
        i as int,
        start as int,
    );
    let mut tile_top = S::constant(Constant::Masked);
    let mut scores: Vec<S> = Vec::new();
    for c in 0..size
        invariant
            0 < d_head <= 64,
            size == tile_size(start as int, seq_len),
            0 < size <= 32,
            start + 32 <= usize::MAX,
            0 <= i < seq_len,
            0 <= base,
            base + seq_len * d_head <= k.len(),
            q_row@ == row(q, base + i * d_head, d_head as int),
            q_row@.len() == d_head,
            *scale == score_scale::<S>(d_head as nat),
            k_tile@.len() == 32 * d_head,
            forall|c: int, d: int|
                0 <= c < size && 0 <= d < d_head ==> #[trigger] k_tile@[c * d_head + d] == k[base + (
                start + c) * d_head + d],
            all == tile_scores(
                q,
                k,
                base,
                seq_len,
                d_head as int,
                causal,
                i as int,
                start as int,
            ),
            scores@ == all.take(c as int),
            tile_top == tile_max(all, causal, i as int, start as int, c as nat),
    {
        let kv_col: usize = start + c;
        if causal && kv_col > i {
            scores.push(S::constant(Constant::Masked));
        } else {
            proof {
                lemma_head_bounds(0, 32, d_head as int, c as int, 0);
                lemma_head_bounds(0, seq_len, d_head as int, start + c, 0);
            }
            let k_row: Vec<S> = copy_row(k_tile, c * d_head, d_head);
            assert(k_row@ =~= row(k, base + (start + c) * d_head, d_head as int)) by {
                assert forall|d: int| 0 <= d < d_head implies k_row@[d] == row(
                    k,
                    base + (start + c) * d_head,
                    d_head as int,
                )[d] by {
                    assert(k_tile@[c * d_head + d] == k[base + (start + c) * d_head + d]);
                }
            }
            let s = dot_product(q_row, &k_row, d_head).times(scale);
            if s.exceeds(&tile_top) {
                tile_top = s.dup();
            }
            scores.push(s);
        }
    }
    assert(scores@ =~= all);
    let m_new = if tile_top.exceeds(&state.m) {
        tile_top
    } else {
        state.m.dup()
    };
    let ghost p = exponentials(all, m_new);
    let mut row_sum = S::constant(Constant::Zero);
    let mut exps: Vec<S> = Vec::new();
    for c in 0..size
        invariant
            scores@ == all,
            all.len() == size,
            p == exponentials(all, m_new),
            exps@ == p.take(c as int),
            row_sum == range_sum(p, 0, c as nat),
    {
        let e = scores[c].minus(&m_new).exp();
        row_sum = row_sum.plus(&e);
        exps.push(e);
    }
    assert(exps@ =~= p);
    let correction = state.m.minus(&m_new).exp();
    let ghost want = row_updated(
        before,
        all,
        v,
        base,
        d_head as int,
        causal,
        i as int,
        start as int,
    );
    let mut acc: Vec<S> = Vec::new();
    for d in 0..d_head
        invariant
            0 < d_head <= 64,
            0 < size <= 32,
            exps@ == p,
            p == exponentials(all, m_new),
            all.len() == size,
            state@ == before,
            before.acc.len() == d_head,
            correction == S::exponential(S::difference(before.m, m_new)),
            m_new == picked(before.m, tile_max(all, causal, i as int, start as int, all.len())),
            want == row_updated(
                before,
                all,
                v,
                base,
                d_head as int,
                causal,
                i as int,
                start as int,
            ),
            v_tile@.len() == 32 * d_head,
            forall|c: int, d: int|
                0 <= c < size && 0 <= d < d_head ==> #[trigger] v_tile@[c * d_head + d] == v[base + (
                start + c) * d_head + d],
            acc@ == want.acc.take(d as int),
    {
        let ghost terms = component(v, base + start * d_head, d_head as int, d as int, all.len());
        let mut o = state.acc[d].times(&correction);
        let ghost o0 = o;
        for c in 0..size
            invariant
                0 <= d < d_head <= 64,
                0 < size <= 32,
                exps@ == p,
                p.len() == size,
                all.len() == size,
                terms == component(v, base + start * d_head, d_head as int, d as int, all.len()),
                v_tile@.len() == 32 * d_head,
                forall|c: int, d: int|
                    0 <= c < size && 0 <= d < d_head ==> #[trigger] v_tile@[c * d_head + d]
                        == v[base + (start + c) * d_head + d],
                o == accumulated(o0, p, terms, c as nat),
        {
            if exps[c].exceeds(&S::constant(Constant::Zero)) {
                proof {
                    lemma_head_bounds(0, 32, d_head as int, c as int, d as int);
                    assert(v_tile@[c * d_head + d] == v[base + (start + c) * d_head + d]);
                    assert((start + c) * d_head == start * d_head + c * d_head)
                        by (nonlinear_arith);
                    assert(terms[c as int] == v[base + start * d_head + c * d_head + d]);
                }
                o = o.plus(&exps[c].times(&v_tile[c * d_head + d]));
            }
        }
        acc.push(o);
    }
    assert(acc@ =~= want.acc);
    state.l = state.l.times(&correction).plus(&row_sum);
    state.m = m_new;
    state.acc = acc;
    assert(state@ =~= want);
}

/// Tiled attention of 32 query rows over one head: the block for `head` and tile
/// `q_tile` handles rows `32 * q_tile` to `32 * q_tile + 31` of the sequence. A row
/// whose weights do not add up to a positive sum is not written.
pub fn flash_attention<S: Scalar>(
    head: u32,
    q_tile: u32,
    q: &Vec<S>,
    k: &Vec<S>,
    v: &Vec<S>,
    out: &mut Vec<S>,
    seq_len: u32,
    d_head: u32,
    causal_mask: u32,
    status: &mut u32,
)
    requires
        0 < d_head <= 64,
        q_tile * 32 + 32 <= u32::MAX,
        seq_len + 31 <= u32::MAX,
        (head + 1) * seq_len * d_head <= u32::MAX,
        (head + 1) * seq_len * d_head <= q@.len(),
        (head + 1) * seq_len * d_head <= k@.len(),
        (head + 1) * seq_len * d_head <= v@.len(),
        (head + 1) * seq_len * d_head <= old(out)@.len(),
    ensures
        final(out)@.len() == old(out)@.len(),
        forall|x: int|
            0 <= x < old(out)@.len() ==> #[trigger] final(out)@[x] == {
                let base = head * seq_len * d_head;
                let i = (x - base) / d_head as int;
                let state = flash_row(
                    q@,
                    k@,
                    v@,
                    base,
                    seq_len as int,
                    d_head as int,
                    causal_mask != 0,
                    i,
                    tiles_seen(q_tile as int, seq_len as int, causal_mask != 0),
                );
                if base <= x && 32 * q_tile <= i < 32 * q_tile + 32 && i < seq_len && above(
                    state.l,
                    zero(),
                ) {
                    flash_value(state, (x - base) % d_head as int)
                } else {
                    old(out)@[x]
                }
            },
        *final(status) == counted(*old(status), 0),
{
    let ghost before = out@;
    let causal: bool = causal_mask != 0;
    let n: usize = seq_len as usize;
    let dh: usize = d_head as usize;
    let first: usize = q_tile as usize * 32;
    if n == 0 {
        count_block(status, 0);
        assert forall|x: int| 0 <= x < before.len() implies out@[x] == before[x] by {}
        return;
    }
    proof {
        lemma_head_bounds(head as int, seq_len as int, d_head as int, 0, 0);
    }
    let base: usize = (head * seq_len * d_head) as usize;
    let scale = S::constant(Constant::One).over(&S::from_count(dh).sqrt());
    let q_size: usize = q.len();
    let mut q_rows: Vec<Vec<S>> = Vec::new();
    let mut rows: Vec<RowState<S>> = Vec::new();
    for tid in 0..32usize
        invariant
            q_size == q@.len(),
            0 < dh <= 64,
            n > 0,
            base + n * dh <= q_size,
            first + 32 <= u32::MAX,
            q_rows@.len() == tid,
            rows@.len() == tid,
            forall|t: int|
                0 <= t < tid && first + t < n ==> (#[trigger] q_rows@[t])@ == row(
                    q@,
                    base + (first + t) * dh,
                    dh as int,
                ) && q_rows@[t]@.len() == dh,
            forall|t: int| 0 <= t < tid ==> (#[trigger] rows@[t])@ == fresh_row::<S>(dh as nat),
    {
        if first + tid < n {
            proof {
                lemma_head_bounds(0, n as int, dh as int, first + tid, 0);
            }
            q_rows.push(copy_row(q, base + (first + tid) * dh, dh));
        } else {
            q_rows.push(Vec::new());
        }
        let mut acc: Vec<S> = Vec::new();
        for d in 0..dh
            invariant
                acc@ == fresh_row::<S>(dh as nat).acc.take(d as int),
        {
            acc.push(S::constant(Constant::Zero));
        }
        let fresh = RowState {
            m: S::constant(Constant::Masked),
            l: S::constant(Constant::Zero),
            acc,
        };
        assert(fresh@ =~= fresh_row::<S>(dh as nat));
        rows.push(fresh);
    }
    let n_kv_tiles: usize = (n + 31) / 32;
    let ghost seen = tiles_seen(q_tile as int, n as int, causal);
    let mut t: usize = 0;
    while t < n_kv_tiles && !(causal && t * 32 > first + 31)
        invariant
            0 < dh <= 64,
            n > 0,
            n + 31 <= u32::MAX,
            n_kv_tiles == (n + 31) / 32,
            first == 32 * q_tile,
            first + 32 <= u32::MAX,
            base + n * dh <= q@.len(),
            base + n * dh <= k@.len(),
            base + n * dh <= v@.len(),
            seen == tiles_seen(q_tile as int, n as int, causal),
            t <= seen <= n_kv_tiles,
            scale == score_scale::<S>(dh as nat),
            q_rows@.len() == 32,
            rows@.len() == 32,
            forall|u: int|
                0 <= u < 32 && first + u < n ==> (#[trigger] q_rows@[u])@ == row(
                    q@,
                    base + (first + u) * dh,
                    dh as int,
                ) && q_rows@[u]@.len() == dh,
            forall|u: int|
                0 <= u < 32 && first + u < n ==> (#[trigger] rows@[u])@ == flash_row(
                    q@,
                    k@,
                    v@,
                    base as int,
                    n as int,
                    dh as int,
                    causal,
                    first + u,
                    t as nat,
                ) && rows@[u]@.acc.len() == dh,
        decreases n_kv_tiles - t,
    {
        let start: usize = t * 32;
        let size: usize = if start + 32 <= n {
            32
        } else {
            n - start
        };
        let k_tile: Vec<S> = load_tile(k, base, n, dh, start);
        let v_tile: Vec<S> = load_tile(v, base, n, dh, start);
        for tid in 0..32usize
            invariant
                0 < dh <= 64,
                n > 0,
                n + 31 <= u32::MAX,
                first + 32 <= u32::MAX,
                start == 32 * t,
                start < n,
                size == tile_size(start as int, n as int),
                base + n * dh <= k@.len(),
                scale == score_scale::<S>(dh as nat),
                q_rows@.len() == 32,
                rows@.len() == 32,
                k_tile@.len() == 32 * dh,
                v_tile@.len() == 32 * dh,
                forall|c: int, d: int|
                    0 <= c < size && 0 <= d < dh ==> #[trigger] k_tile@[c * dh + d] == k@[base + (
                    start + c) * dh + d],
                forall|c: int, d: int|
                    0 <= c < size && 0 <= d < dh ==> #[trigger] v_tile@[c * dh + d] == v@[base + (
                    start + c) * dh + d],
                forall|u: int|
                    0 <= u < 32 && first + u < n ==> (#[trigger] q_rows@[u])@ == row(
                        q@,
                        base + (first + u) * dh,
                        dh as int,
                    ) && q_rows@[u]@.len() == dh,
                forall|u: int|
                    0 <= u < 32 && first + u < n ==> (#[trigger] rows@[u])@ == flash_row(
                        q@,
                        k@,
                        v@,
                        base as int,
                        n as int,
                        dh as int,
                        causal,
                        first + u,
                        if u < tid {
                            (t + 1) as nat
                        } else {
                            t as nat
                        },
                    ) && rows@[u]@.acc.len() == dh,
        {
            let my_row: usize = first + tid;
            if my_row < n {
                assert(q_rows@[tid as int]@ == row(q@, base + (first + tid) * dh, dh as int));
                assert(rows@[tid as int]@ == flash_row(
                    q@,
                    k@,
                    v@,
                    base as int,
                    n as int,
                    dh as int,
                    causal,
                    first + tid,
                    t as nat,
                ));
                update_row(
                    &mut rows[tid],
                    &q_rows[tid],
                    &k_tile,
                    &v_tile,
                    &scale,
                    size,
                    dh,
                    causal,
                    my_row,
                    start,
                    Ghost(q@),
                    Ghost(k@),
                    Ghost(v@),
                    Ghost(base as int),
                    Ghost(n as int),
                );
            }
        }
        t += 1;
    }
    assert(t == seen);
    let out_size: usize = out.len();
    for tid in 0..32usize
        invariant
            0 < dh <= 64,
            n > 0,
            first == 32 * q_tile,
            first + 32 <= u32::MAX,
            out_size == before.len(),
            base + n * dh <= out_size,
            rows@.len() == 32,
            forall|u: int|
                0 <= u < 32 && first + u < n ==> (#[trigger] rows@[u])@ == flash_row(
                    q@,
                    k@,
                    v@,
                    base as int,
                    n as int,
                    dh as int,
                    causal,
                    first + u,
                    seen,
                ) && rows@[u]@.acc.len() == dh,
            out@.len() == before.len(),
            forall|x: int|
                0 <= x < before.len() ==> #[trigger] out@[x] == {
                    let i = (x - base) / dh as int;
                    let state = flash_row(
                        q@,
                        k@,
                        v@,
                        base as int,
                        n as int,
                        dh as int,
                        causal,
                        i,
                        seen,
                    );
                    if base <= x && first <= i < first + tid && i < n && above(state.l, zero()) {
                        flash_value(state, (x - base) % dh as int)
                    } else {
                        before[x]
                    }
                },
    {
        let my_row: usize = first + tid;
        let ghost mid = out@;
        let ghost state = rows@[tid as int]@;
        if my_row < n && rows[tid].l.exceeds(&S::constant(Constant::Zero)) {
            let inv_l = S::constant(Constant::One).over(&rows[tid].l);
            proof {
                lemma_head_bounds(0, n as int, dh as int, my_row as int, 0);
            }
            let at: usize = base + my_row * dh;
            for d in 0..dh
                invariant
                    0 <= tid < 32,
                    rows@.len() == 32,
                    rows@[tid as int]@ == state,
                    state.acc.len() == dh,
                    inv_l == S::quotient(one(), state.l),
                    out_size == before.len(),
                    at + dh <= out_size,
                    out@.len() == before.len(),
                    mid.len() == before.len(),
                    forall|x: int|
                        0 <= x < before.len() ==> #[trigger] out@[x] == if at <= x < at + d {
                            flash_value(state, x - at)
                        } else {
                            mid[x]
                        },
            {
                let val = rows[tid].acc[d].times(&inv_l);
                out.set(at + d, val);
            }
        }
        assert forall|x: int| 0 <= x < before.len() implies #[trigger] out@[x] == {
            let i = (x - base) / dh as int;
            let state = flash_row(
                q@,
                k@,
                v@,
                base as int,
                n as int,
                dh as int,
                causal,
                i,
                seen,
            );
            if base <= x && first <= i < first + tid + 1 && i < n && above(state.l, zero()) {
                flash_value(state, (x - base) % dh as int)
            } else {
                before[x]
            }
        } by {
            let i = (x - base) / dh as int;
            if base <= x {
                lemma_element_row(x - base, dh as int, my_row as int);
            }
            assert(mid[x] == out@[x] || (my_row < n && base <= x && i == my_row));
        }
    }
    count_block(status, 0);
    assert(first + 32 == 32 * q_tile + 32);
}

/// Which row an element lies in.
proof fn lemma_element_row(y: int, d_head: int, i: int)
    requires
        0 <= y,
        0 < d_head,
        0 <= i,
    ensures
        y / d_head == i <==> i * d_head <= y < i * d_head + d_head,
        i * d_head <= y < i * d_head + d_head ==> y % d_head == y - i * d_head,
        0 <= y % d_head < d_head,
        y / d_head >= 0,
{
    vstd::arithmetic::div_mod::lemma_fundamental_div_mod(y, d_head);
    let r = y / d_head;
    assert(d_head * r == r * d_head) by (nonlinear_arith);
    assert(0 <= y % d_head < d_head && r >= 0) by (nonlinear_arith)
        requires
            0 <= y,
            0 < d_head,
            r == y / d_head,
    ;
    if i * d_head <= y < i * d_head + d_head {
        assert(y == d_head * i + (y - i * d_head)) by (nonlinear_arith);
        vstd::arithmetic::div_mod::lemma_fundamental_div_mod_converse(
            y,
            d_head,
            i,
            y - i * d_head,
        );
    }
}

/// With the causal mask, the block for a tile of queries never looks at keys or values
/// behind its last query: two sequences that agree up to there give the same result.
pub proof fn causal_tiles_hide_the_future<S: Scalar>(
    q: Seq<S>,
    k1: Seq<S>,
    v1: Seq<S>,
    k2: Seq<S>,
    v2: Seq<S>,
    base: int,
    seq_len: int,
    d_head: int,
    q_tile: int,
    i: int,
)
    requires
        0 <= base,
        0 < d_head,
        0 <= q_tile,
        0 <= i < seq_len,
        base + seq_len * d_head <= k1.len(),
        base + seq_len * d_head <= k2.len(),
        forall|x: int|
            base <= x < base + 32 * (q_tile + 1) * d_head ==> #[trigger] k1[x] == k2[x],
        forall|x: int|
            base <= x < base + 32 * (q_tile + 1) * d_head ==> #[trigger] v1[x] == v2[x],
    ensures
        ({
            let t = tiles_seen(q_tile, seq_len, true);
            flash_row(q, k1, v1, base, seq_len, d_head, true, i, t) == flash_row(
                q,
                k2,
                v2,
                base,
                seq_len,
                d_head,
                true,
                i,
                t,
            )
        }),
{
    lemma_same_tiles(
        q,
        k1,
        v1,
        k2,
        v2,
        base,
        seq_len,
        d_head,
        q_tile,
        i,
        tiles_seen(q_tile, seq_len, true),
    );
}

proof fn lemma_same_tiles<S: Scalar>(
    q: Seq<S>,
    k1: Seq<S>,
    v1: Seq<S>,
    k2: Seq<S>,
    v2: Seq<S>,
    base: int,
    seq_len: int,
    d_head: int,
    q_tile: int,
    i: int,
    t: nat,
)
    requires
        0 <= base,
        0 < d_head,
        0 <= q_tile,
        0 <= i < seq_len,
        base + seq_len * d_head <= k1.len(),
        base + seq_len * d_head <= k2.len(),
        t <= tiles_seen(q_tile, seq_len, true),
        forall|x: int|
            base <= x < base + 32 * (q_tile + 1) * d_head ==> #[trigger] k1[x] == k2[x],
        forall|x: int|
            base <= x < base + 32 * (q_tile + 1) * d_head ==> #[trigger] v1[x] == v2[x],
    ensures
        flash_row(q, k1, v1, base, seq_len, d_head, true, i, t) == flash_row(
            q,
            k2,
            v2,
            base,
            seq_len,
            d_head,
            true,
            i,
            t,
        ),
    decreases t,
{
    if t > 0 {
        lemma_same_tiles(
            q,
            k1,
            v1,
            k2,
            v2,
            base,
            seq_len,
            d_head,
            q_tile,
            i,
            (t - 1) as nat,
        );
        let start = 32 * (t - 1);
        let s1 = tile_scores(q, k1, base, seq_len, d_head, true, i, start);
        let s2 = tile_scores(q, k2, base, seq_len, d_head, true, i, start);
        assert(start < seq_len);
        assert forall|c: int| 0 <= c < s1.len() implies s1[c] == s2[c] by {
            let j = start + c;
            assert(j < 32 * (q_tile + 1));
            assert(0 <= j * d_head && j * d_head + d_head <= 32 * (q_tile + 1) * d_head)
                by (nonlinear_arith)
                requires
                    0 <= j < 32 * (q_tile + 1),
                    0 < d_head,
            ;
            lemma_head_bounds(0, seq_len, d_head, j, 0);
            assert(row(k1, base + j * d_head, d_head) =~= row(k2, base + j * d_head, d_head));
        }
        assert(s1 =~= s2);
        let state = flash_row(q, k1, v1, base, seq_len, d_head, true, i, (t - 1) as nat);
        let r1 = row_updated(state, s1, v1, base, d_head, true, i, start);
        let r2 = row_updated(state, s2, v2, base, d_head, true, i, start);
        assert forall|d: int| 0 <= d < d_head implies r1.acc[d] == r2.acc[d] by {
            let c1 = component(v1, base + start * d_head, d_head, d, s1.len());
            let c2 = component(v2, base + start * d_head, d_head, d, s1.len());
            assert forall|c: int| 0 <= c < s1.len() implies c1[c] == c2[c] by {
                let j = start + c;
                assert(j < 32 * (q_tile + 1));
                assert(0 <= j * d_head && j * d_head + d_head <= 32 * (q_tile + 1) * d_head
                    && start * d_head + c * d_head == j * d_head) by (nonlinear_arith)
                    requires
                        0 <= j < 32 * (q_tile + 1),
                        0 < d_head,
                        j == start + c,
                ;
            }
            assert(c1 =~= c2);
        }
        assert(r1.acc =~= r2.acc);
    }
}

} // verus!
