//! Kernels whose threads add up or compare values with each other.

use vstd::prelude::*;

use crate::kernels::elementwise::counted;
use crate::kernels::elementwise::count_block;
use crate::scalar::{above, one, zero, Constant, Scalar};

verus! {

/// The lanes of a warp.
pub const LANES: usize = 32;

/// The lane that a lane exchanges values with at a distance.
pub open spec fn partner(lane: int, offset: u32) -> int {
    (lane as u32 ^ offset) as int
}

/// The lanes' values after they exchanged and added at one distance.
pub open spec fn exchanged<S: Scalar>(vals: Seq<S>, offset: u32) -> Seq<S> {
    Seq::new(32, |i: int| S::sum(vals[i], vals[partner(i, offset)]))
}

/// The lanes' values after they exchanged and added at the distances from `offset`
/// down to one.
pub open spec fn butterfly<S: Scalar>(vals: Seq<S>, offset: u32) -> Seq<S>
    decreases offset,
{
    if offset == 0 {
        vals
    } else {
        butterfly(exchanged(vals, offset), offset / 2)
    }
}

proof fn lemma_partner(i: u32, offset: u32)
    requires
        i < 32,
        offset < 32,
    ensures
        0 <= partner(i as int, offset) < 32,
{
    assert(i ^ offset < 32) by (bit_vector)
        requires
            i < 32,
            offset < 32,
    ;
}

/// Adds up the values of all lanes: every lane ends with a sum over all of them.
pub fn warp_reduce_sum_f32<S: Scalar>(vals: Vec<S>) -> (r: Vec<S>)
    requires
        vals@.len() == LANES,
    ensures
        r@ == butterfly(vals@, 16),
        r@.len() == LANES,
{
    let ghost start = vals@;
    let mut cur: Vec<S> = vals;
    let mut offset: u32 = 16;
    while offset > 0
        invariant
            cur@.len() == LANES,
            offset < 32,
            butterfly(start, 16) == butterfly(cur@, offset),
        decreases offset,
    {
        let mut next: Vec<S> = Vec::new();
        for i in 0..LANES
            invariant
                cur@.len() == LANES,
                offset < 32,
                next@ == exchanged(cur@, offset).take(i as int),
        {
            proof {
                lemma_partner(i as u32, offset);
            }
            let other: usize = ((i as u32) ^ offset) as usize;
            next.push(cur[i].plus(&cur[other]));
        }
        assert(next@ =~= exchanged(cur@, offset));
        cur = next;
        offset = offset / 2;
    }
    cur
}

/// The values of two lanes are the same wherever they are `o` apart.
spec fn alike<S: Scalar>(vals: Seq<S>, o: u32) -> bool {
    forall|i: int| 0 <= i < 32 ==> #[trigger] vals[i] == vals[partner(i, o)]
}

proof fn lemma_exchange_keeps<S: Scalar>(vals: Seq<S>, o: u32, offset: u32)
    requires
        o < 32,
        offset < 32,
        alike(vals, o),
    ensures
        alike(exchanged(vals, offset), o),
{
    let next = exchanged(vals, offset);
    assert forall|i: int| 0 <= i < 32 implies #[trigger] next[i] == next[partner(i, o)] by {
        let u = i as u32;
        lemma_partner(u, o);
        lemma_partner(u, offset);
        let a = u ^ o;
        let b = u ^ offset;
        assert(a ^ offset == b ^ o) by (bit_vector)
            requires
                a == u ^ o,
                b == u ^ offset,
        ;
        assert(vals[b as int] == vals[partner(b as int, o)]);
    }
}

proof fn lemma_exchange_makes_alike<S: Scalar>(vals: Seq<S>, offset: u32)
    requires
        offset < 32,
        forall|a: S, b: S| #[trigger] S::sum(a, b) == S::sum(b, a),
    ensures
        alike(exchanged(vals, offset), offset),
{
    let next = exchanged(vals, offset);
    assert forall|i: int| 0 <= i < 32 implies #[trigger] next[i] == next[partner(i, offset)] by {
        let u = i as u32;
        lemma_partner(u, offset);
        let b = u ^ offset;
        assert(b ^ offset == u) by (bit_vector)
            requires
                b == u ^ offset,
        ;
    }
}

/// Where addition is commutative, all lanes end with the same sum.
pub proof fn all_lanes_get_the_same_sum<S: Scalar>(vals: Seq<S>, lane: int)
    requires
        vals.len() == LANES,
        0 <= lane < LANES,
        forall|a: S, b: S| #[trigger] S::sum(a, b) == S::sum(b, a),
    ensures
        butterfly(vals, 16)[lane] == butterfly(vals, 16)[0],
{
    let v1 = exchanged(vals, 16);
    let v2 = exchanged(v1, 8);
    let v3 = exchanged(v2, 4);
    let v4 = exchanged(v3, 2);
    let v5 = exchanged(v4, 1);
    reveal_with_fuel(butterfly, 6);
    assert(butterfly(vals, 16) == v5);
    lemma_exchange_makes_alike(vals, 16);
    lemma_exchange_keeps(v1, 16, 8);
    lemma_exchange_makes_alike(v1, 8);
    lemma_exchange_keeps(v2, 16, 4);
    lemma_exchange_keeps(v2, 8, 4);
    lemma_exchange_makes_alike(v2, 4);
    lemma_exchange_keeps(v3, 16, 2);
    lemma_exchange_keeps(v3, 8, 2);
    lemma_exchange_keeps(v3, 4, 2);
    lemma_exchange_makes_alike(v3, 2);
    lemma_exchange_keeps(v4, 16, 1);
    lemma_exchange_keeps(v4, 8, 1);
    lemma_exchange_keeps(v4, 4, 1);
    lemma_exchange_keeps(v4, 2, 1);
    lemma_exchange_makes_alike(v4, 1);
    let l = lane as u32;
    let a = if l >= 16 {
        (l ^ 16) as u32
    } else {
        l
    };
    let b = if a >= 8 {
        (a ^ 8) as u32
    } else {
        a
    };
    let c = if b >= 4 {
        (b ^ 4) as u32
    } else {
        b
    };
    let d = if c >= 2 {
        (c ^ 2) as u32
    } else {
        c
    };
    assert(l < 32 && l >= 16 ==> (l ^ 16) < 16) by (bit_vector);
    assert(a < 16 && a >= 8 ==> (a ^ 8) < 8) by (bit_vector);
    assert(b < 8 && b >= 4 ==> (b ^ 4) < 4) by (bit_vector);
    assert(c < 4 && c >= 2 ==> (c ^ 2) < 2) by (bit_vector);
    assert(d < 2 && d >= 1 ==> (d ^ 1) == 0) by (bit_vector);
    assert(v5[l as int] == v5[a as int]);
    assert(v5[a as int] == v5[b as int]);
    assert(v5[b as int] == v5[c as int]);
    assert(v5[c as int] == v5[d as int]);
    assert(v5[d as int] == v5[0]);
}

/// The sum of `n` elements from `start` on, added up from the left.
pub open spec fn range_sum<S: Scalar>(x: Seq<S>, start: int, n: nat) -> S
    decreases n,
{
    if n == 0 {
        zero()
    } else {
        S::sum(range_sum(x, start, (n - 1) as nat), x[start + n - 1])
    }
}

/// The squared distance of an element from a mean.
pub open spec fn squared_deviation<S: Scalar>(x: S, mean: S) -> S {
    S::product(S::difference(x, mean), S::difference(x, mean))
}

/// The sum of the squared distances of `n` elements from a mean.
pub open spec fn range_deviation<S: Scalar>(x: Seq<S>, start: int, n: nat, mean: S) -> S
    decreases n,
{
    if n == 0 {
        zero()
    } else {
        S::sum(
            range_deviation(x, start, (n - 1) as nat, mean),
            squared_deviation(x[start + n - 1], mean),
        )
    }
}

/// How many elements of a row a lane takes at most: the row's length divided by the
/// number of lanes, rounded up.
pub open spec fn lane_share(d_model: nat) -> nat {
    (d_model + 31) / 32
}

/// Where a lane's elements start within a row. They end where those of the next lane
/// start.
pub open spec fn lane_first(d_model: nat, t: int) -> int {
    if t * lane_share(d_model) <= d_model {
        t * lane_share(d_model)
    } else {
        d_model as int
    }
}

/// How many elements of a row a lane has.
pub open spec fn lane_count(d_model: nat, t: int) -> nat {
    (lane_first(d_model, t + 1) - lane_first(d_model, t)) as nat
}

/// Each lane's mean of a row that starts at `base`: a lane adds up its elements, the
/// lanes add up their sums, and each divides by the row's length.
pub open spec fn lane_mean<S: Scalar>(x: Seq<S>, base: int, d_model: nat, lane: int) -> S {
    let sums = lane_sums(x, base, d_model);
    S::quotient(butterfly(sums, 16)[lane], S::count_value(d_model))
}

/// What each lane adds up of a row that starts at `base`.
pub open spec fn lane_sums<S: Scalar>(x: Seq<S>, base: int, d_model: nat) -> Seq<S> {
    Seq::new(
        32,
        |t: int| range_sum(x, base + lane_first(d_model, t), lane_count(d_model, t)),
    )
}

/// The squared distances from its mean that each lane adds up.
pub open spec fn lane_deviations<S: Scalar>(x: Seq<S>, base: int, d_model: nat) -> Seq<S> {
    Seq::new(
        32,
        |t: int|
            range_deviation(
                x,
                base + lane_first(d_model, t),
                lane_count(d_model, t),
                lane_mean(x, base, d_model, t),
            ),
    )
}

/// Each lane's inverse standard deviation of a row.
pub open spec fn lane_inv_std<S: Scalar>(
    x: Seq<S>,
    base: int,
    d_model: nat,
    eps: S,
    lane: int,
) -> S {
    let sums = lane_deviations(x, base, d_model);
    let var = S::quotient(butterfly(sums, 16)[lane], S::count_value(d_model));
    S::quotient(one(), S::root(S::sum(var, eps)))
}

/// The normalized element `i` of a row, computed by the lane that has it.
pub open spec fn normalized<S: Scalar>(
    x: Seq<S>,
    gamma: Seq<S>,
    beta: Seq<S>,
    base: int,
    d_model: nat,
    eps: S,
    i: int,
) -> S {
    let lane = i / lane_share(d_model) as int;
    let mean = lane_mean(x, base, d_model, lane);
    let inv_std = lane_inv_std(x, base, d_model, eps, lane);
    S::sum(
        S::product(S::product(gamma[i], S::difference(x[base + i], mean)), inv_std),
        beta[i],
    )
}

/// The lanes' elements adjoin each other, from the start of the row to its end.
pub(crate) proof fn lemma_lanes(d_model: nat, t: int)
    requires
        d_model > 0,
        0 <= t < 32,
    ensures
        lane_share(d_model) > 0,
        lane_first(d_model, 0) == 0,
        lane_first(d_model, 32) == d_model,
        0 <= lane_first(d_model, t) <= lane_first(d_model, t + 1) <= d_model,
{
    let share = lane_share(d_model) as int;
    assert(0 <= t * share && t * share <= (t + 1) * share) by (nonlinear_arith)
        requires
            0 <= t,
            0 <= share,
    ;
}

/// Every element of a row belongs to one lane.
proof fn lemma_lane_of(d_model: nat, t: int, i: int)
    requires
        d_model > 0,
        0 <= t < 32,
        lane_first(d_model, t) <= i < lane_first(d_model, t + 1),
    ensures
        i / lane_share(d_model) as int == t,
{
    lemma_lanes(d_model, t);
    let share = lane_share(d_model) as int;
    assert(t * share <= i && i < (t + 1) * share);
    assert((t + 1) * share == t * share + share && t * share == share * t) by (nonlinear_arith);
    vstd::arithmetic::div_mod::lemma_fundamental_div_mod_converse(i, share, t, i - share * t);
}

/// Where a lane's elements start within a row.
fn first_of_lane(d_model: usize, t: usize) -> (r: usize)
    requires
        d_model > 0,
        t <= 32,
    ensures
        r == lane_first(d_model as nat, t as int),
{
    let share: usize = d_model / 32 + if d_model % 32 > 0 { 1 } else { 0 };
    let whole: usize = d_model / share;
    proof {
        vstd::arithmetic::div_mod::lemma_fundamental_div_mod(d_model as int, share as int);
        if t <= whole {
            assert(t * share <= whole * share) by (nonlinear_arith)
                requires
                    t <= whole,
                    0 <= share,
            ;
            assert(whole * share == share * whole) by (nonlinear_arith);
        } else {
            assert(t * share >= (whole + 1) * share) by (nonlinear_arith)
                requires
                    t >= whole + 1,
                    0 <= share,
            ;
            assert((whole + 1) * share == share * whole + share) by (nonlinear_arith);
        }
    }
    if t <= whole {
        t * share
    } else {
        d_model
    }
}

/// Normalizes a row: every element is centred, scaled by the inverse standard deviation
/// and by `gamma`, and shifted by `beta`. One block of 32 threads handles one row; each
/// thread takes an equal share of its elements, the last ones what is left.
pub fn layer_norm<S: Scalar>(
    row: u32,
    input: &Vec<S>,
    output: &mut Vec<S>,
    gamma: &Vec<S>,
    beta: &Vec<S>,
    d_model: u32,
    eps: &S,
    status: &mut u32,
)
    requires
        (row + 1) * d_model <= u32::MAX,
        (row + 1) * d_model <= input@.len(),
        (row + 1) * d_model <= old(output)@.len(),
        d_model <= gamma@.len(),
        d_model <= beta@.len(),
    ensures
        final(output)@.len() == old(output)@.len(),
        forall|i: int|
            0 <= i < old(output)@.len() ==> #[trigger] final(output)@[i] == {
                let base = row * d_model;
                if base <= i < base + d_model {
                    normalized(input@, gamma@, beta@, base, d_model as nat, *eps, i - base)
                } else {
                    old(output)@[i]
                }
            },
        *final(status) == counted(*old(status), 0),
{
    proof {
        let (r, m) = (row as int, d_model as int);
        assert(0 <= r * m && r * m + m == (r + 1) * m) by (nonlinear_arith)
            requires
                0 <= r,
                0 <= m,
        ;
    }
    if d_model == 0 {
        count_block(status, 0);
        return;
    }
    let base: usize = (row * d_model) as usize;
    let dm: usize = d_model as usize;
    let ghost before = output@;
    let size: usize = input.len();
    let count = S::from_count(dm);
    let mut sums: Vec<S> = Vec::new();
    let ghost all_sums = lane_sums(input@, base as int, dm as nat);
    for t in 0..LANES
        invariant
            size == input@.len(),
            base + dm <= size,
            dm > 0,
            all_sums == lane_sums(input@, base as int, dm as nat),
            sums@ == all_sums.take(t as int),
    {
        proof {
            lemma_lanes(dm as nat, t as int);
        }
        let first: usize = first_of_lane(dm, t);
        let end: usize = first_of_lane(dm, t + 1);
        let mut local_sum = S::constant(Constant::Zero);
        for idx in first..end
            invariant
                size == input@.len(),
                base + dm <= size,
                end <= dm,
                local_sum == range_sum(input@, base + first, (idx - first) as nat),
        {
            local_sum = local_sum.plus(&input[base + idx]);
        }
        sums.push(local_sum);
    }
    assert(sums@ =~= all_sums);
    let total_sum = warp_reduce_sum_f32(sums);
    let mut means: Vec<S> = Vec::new();
    for t in 0..LANES
        invariant
            total_sum@.len() == 32,
            count == S::count_value(dm as nat),
            total_sum@ == butterfly(lane_sums(input@, base as int, dm as nat), 16),
            means@.len() == t,
            forall|j: int|
                0 <= j < t ==> #[trigger] means@[j] == lane_mean(
                    input@,
                    base as int,
                    dm as nat,
                    j,
                ),
    {
        means.push(total_sum[t].over(&count));
    }
    let ghost all_vars = lane_deviations(input@, base as int, dm as nat);
    let mut vars: Vec<S> = Vec::new();
    for t in 0..LANES
        invariant
            size == input@.len(),
            base + dm <= size,
            dm > 0,
            means@.len() == 32,
            forall|j: int|
                0 <= j < 32 ==> #[trigger] means@[j] == lane_mean(
                    input@,
                    base as int,
                    dm as nat,
                    j,
                ),
            all_vars == lane_deviations(input@, base as int, dm as nat),
            vars@ == all_vars.take(t as int),
    {
        proof {
            lemma_lanes(dm as nat, t as int);
        }
        let first: usize = first_of_lane(dm, t);
        let end: usize = first_of_lane(dm, t + 1);
        let mut local_var = S::constant(Constant::Zero);
        for idx in first..end
            invariant
                0 <= t < 32,
                size == input@.len(),
                base + dm <= size,
                end <= dm,
                means@.len() == 32,
                local_var == range_deviation(
                    input@,
                    base + first,
                    (idx - first) as nat,
                    means@[t as int],
                ),
        {
            let diff = input[base + idx].minus(&means[t]);
            local_var = local_var.plus(&diff.times(&diff));
        }
        vars.push(local_var);
    }
    assert(vars@ =~= all_vars);
    let total_var = warp_reduce_sum_f32(vars);
    proof {
        lemma_lanes(dm as nat, 0);
    }
    for t in 0..LANES
        invariant
            size == input@.len(),
            base + dm <= size,
            base + dm <= before.len(),
            dm > 0,
            dm <= gamma@.len(),
            dm <= beta@.len(),
            count == S::count_value(dm as nat),
            means@.len() == 32,
            total_var@.len() == 32,
            forall|j: int|
                0 <= j < 32 ==> #[trigger] means@[j] == lane_mean(
                    input@,
                    base as int,
                    dm as nat,
                    j,
                ),
            total_var@ == butterfly(lane_deviations(input@, base as int, dm as nat), 16),
            output@.len() == before.len(),
            forall|i: int|
                0 <= i < before.len() ==> #[trigger] output@[i] == if base <= i < base + lane_first(
                    dm as nat,
                    t as int,
                ) {
                    normalized(input@, gamma@, beta@, base as int, dm as nat, *eps, i - base)
                } else {
                    before[i]
                },
    {
        proof {
            lemma_lanes(dm as nat, t as int);
        }
        let first: usize = first_of_lane(dm, t);
        let end: usize = first_of_lane(dm, t + 1);
        let var = total_var[t].over(&count);
        let inv_std = S::constant(Constant::One).over(&var.plus(eps).sqrt());
        for idx in first..end
            invariant
                0 <= t < 32,
                size == input@.len(),
                base + dm <= size,
                base + dm <= before.len(),
                dm > 0,
                dm <= gamma@.len(),
                dm <= beta@.len(),
                first == lane_first(dm as nat, t as int),
                end == lane_first(dm as nat, t + 1),
                end <= dm,
                means@.len() == 32,
                means@[t as int] == lane_mean(input@, base as int, dm as nat, t as int),
                inv_std == lane_inv_std(input@, base as int, dm as nat, *eps, t as int),
                output@.len() == before.len(),
                forall|i: int|
                    0 <= i < before.len() ==> #[trigger] output@[i] == if base <= i < base + idx {
                        normalized(input@, gamma@, beta@, base as int, dm as nat, *eps, i - base)
                    } else {
                        before[i]
                    },
        {
            proof {
                lemma_lane_of(dm as nat, t as int, idx as int);
            }
            let centred = input[base + idx].minus(&means[t]);
            let val = gamma[idx].times(&centred).times(&inv_std).plus(&beta[idx]);
            output.set(base + idx, val);
        }
    }
    count_block(status, 0);
}

/// The greater of two elements, as the maximum reduction picks it.
pub open spec fn picked<S: Scalar>(a: S, b: S) -> S {
    if above(b, a) {
        b
    } else {
        a
    }
}

/// Half of a number of elements, rounded up.
pub open spec fn half_up(n: nat) -> nat {
    (n + n % 2) / 2
}

/// What is left to compare after each thread of the lower half took in its element of the
/// upper half. With an odd number of elements the last thread has none.
pub open spec fn max_halved<S: Scalar>(x: Seq<S>) -> Seq<S> {
    let stride = half_up(x.len());
    Seq::new(
        stride,
        |i: int|
            if i + stride < x.len() {
                picked(x[i], x[i + stride])
            } else {
                x[i]
            },
    )
}

/// The maximum of a vector, with half as many elements in every step.
pub open spec fn max_reduced<S: Scalar>(x: Seq<S>) -> S
    decreases x.len(),
{
    if x.len() <= 1 {
        x[0]
    } else {
        max_reduced(max_halved(x))
    }
}

/// What is left to add after each thread of the lower half added its element of the
/// upper half. With an odd number of elements the last thread has none.
pub open spec fn sum_halved<S: Scalar>(x: Seq<S>) -> Seq<S> {
    let stride = half_up(x.len());
    Seq::new(
        stride,
        |i: int|
            if i + stride < x.len() {
                S::sum(x[i], x[i + stride])
            } else {
                x[i]
            },
    )
}

/// The sum of a vector, with half as many elements in every step.
pub open spec fn sum_reduced<S: Scalar>(x: Seq<S>) -> S
    decreases x.len(),
{
    if x.len() <= 1 {
        x[0]
    } else {
        sum_reduced(sum_halved(x))
    }
}

/// The exponentials of a vector's elements relative to its maximum.
pub open spec fn shifted_exponentials<S: Scalar>(x: Seq<S>) -> Seq<S> {
    let max = max_reduced(x);
    Seq::new(x.len(), |i: int| S::exponential(S::difference(x[i], max)))
}

/// The softmax of a vector: each exponential divided by the sum of all of them.
pub open spec fn softmax_value<S: Scalar>(x: Seq<S>) -> Seq<S> {
    let e = shifted_exponentials(x);
    let total = sum_reduced(e);
    Seq::new(x.len(), |i: int| S::quotient(e[i], total))
}

fn copy_prefix<S: Scalar>(x: &Vec<S>, n: usize) -> (r: Vec<S>)
    requires
        n <= x@.len(),
    ensures
        r@ == x@.take(n as int),
{
    let mut r: Vec<S> = Vec::new();
    for i in 0..n
        invariant
            n <= x@.len(),
            r@ == x@.take(i as int),
    {
        r.push(x[i].dup());
    }
    r
}

/// Computes the softmax of the first `n` elements in one block of `n` threads. Without
/// elements there is no thread that does anything.
pub fn test_softmax<S: Scalar>(
    input: &Vec<S>,
    output: &mut Vec<S>,
    n: u32,
    status: &mut u32,
)
    requires
        n <= input@.len(),
        n <= old(output)@.len(),
    ensures
        final(output)@ == softmax_value(input@.take(n as int)) + old(output)@.skip(n as int),
        *final(status) == if n == 0 {
            *old(status)
        } else {
            1
        },
{
    if n == 0 {
        assert(output@ =~= softmax_value(input@.take(0)) + output@.skip(0));
        return;
    }
    let len: usize = n as usize;
    let ghost x = input@.take(len as int);
    let mut smem: Vec<S> = copy_prefix(input, len);
    let mut live: usize = len;
    assert(smem@.take(len as int) =~= x);
    while live > 1
        invariant
            smem@.len() == len,
            0 < live <= len,
            max_reduced(x) == max_reduced(smem@.take(live as int)),
        decreases live,
    {
        let stride: usize = live / 2 + live % 2;
        let ghost phase = smem@;
        for tid in 0..stride
            invariant
                smem@.len() == len,
                phase.len() == len,
                live <= len,
                stride == live / 2 + live % 2,
                forall|i: int|
                    0 <= i < len ==> #[trigger] smem@[i] == if i < tid && i + stride < live {
                        picked(phase[i], phase[i + stride])
                    } else {
                        phase[i]
                    },
        {
            if tid + stride < live {
                if smem[tid + stride].exceeds(&smem[tid]) {
                    let b = smem[tid + stride].dup();
                    smem.set(tid, b);
                }
            }
        }
        assert(smem@.take(stride as int) =~= max_halved(phase.take(live as int)));
        live = stride;
    }
    assert(smem@.take(live as int)[0] == smem@[0]);
    let max_val = smem[0].dup();
    let mut exps: Vec<S> = Vec::new();
    for i in 0..len
        invariant
            len <= input@.len(),
            x == input@.take(len as int),
            max_val == max_reduced(x),
            exps@ == shifted_exponentials(x).take(i as int),
    {
        exps.push(input[i].minus(&max_val).exp());
    }
    let ghost e = shifted_exponentials(x);
    assert(exps@ =~= e);
    let mut smem: Vec<S> = copy_prefix(&exps, len);
    assert(smem@.take(len as int) =~= e);
    live = len;
    while live > 1
        invariant
            smem@.len() == len,
            0 < live <= len,
            sum_reduced(e) == sum_reduced(smem@.take(live as int)),
        decreases live,
    {
        let stride: usize = live / 2 + live % 2;
        let ghost phase = smem@;
        for tid in 0..stride
            invariant
                smem@.len() == len,
                phase.len() == len,
                live <= len,
                stride == live / 2 + live % 2,
                forall|i: int|
                    0 <= i < len ==> #[trigger] smem@[i] == if i < tid && i + stride < live {
                        S::sum(phase[i], phase[i + stride])
                    } else {
                        phase[i]
                    },
        {
            if tid + stride < live {
                let total = smem[tid].plus(&smem[tid + stride]);
                smem.set(tid, total);
            }
        }
        assert(smem@.take(stride as int) =~= sum_halved(phase.take(live as int)));
        live = stride;
    }
    assert(smem@.take(live as int)[0] == smem@[0]);
    let ghost before = output@;
    for i in 0..len
        invariant
            exps@ == e,
            e.len() == len,
            smem@.len() == len,
            smem@[0] == sum_reduced(e),
            e == shifted_exponentials(x),
            x.len() == len,
            len > 0,
            output@.len() == before.len(),
            len <= before.len(),
            forall|j: int|
                0 <= j < before.len() ==> #[trigger] output@[j] == if j < i {
                    softmax_value(x)[j]
                } else {
                    before[j]
                },
    {
        let val = exps[i].over(&smem[0]);
        output.set(i, val);
    }
    assert(output@ =~= softmax_value(x) + before.skip(len as int));
    *status = 1;
}

/// Among elements that can all be compared, the reduced maximum of a vector is one of its
/// elements, and none exceeds it.
pub proof fn reduced_maximum_is_greatest<S: Scalar>(x: Seq<S>, i: int)
    requires
        forall|j: int| 0 <= j < x.len() ==> S::rank(#[trigger] x[j]) is Some,
        0 <= i < x.len(),
    ensures
        x.contains(max_reduced(x)),
        !above(x[i], max_reduced(x)),
    decreases x.len(),
{
    if x.len() > 1 {
        let next = max_halved(x);
        let stride = half_up(x.len()) as int;
        let k = if i < stride {
            i
        } else {
            i - stride
        };
        assert forall|j: int| 0 <= j < next.len() implies S::rank(#[trigger] next[j]) is Some
            && x.contains(next[j]) by {
            assert(x[j] == x[j]);
            if j + stride < x.len() {
                assert(x[j + stride] == x[j + stride]);
            }
        }
        assert(S::rank(x[k]) is Some && S::rank(x[i]) is Some);
        assert(!above(x[i], next[k]));
        reduced_maximum_is_greatest(next, k);
        let top = max_reduced(next);
        let p = choose|p: int| 0 <= p < next.len() && next[p] == top;
        assert(S::rank(next[p]) is Some && S::rank(next[k]) is Some);
    }
}

} // verus!
