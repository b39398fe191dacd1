//! Integer square roots by iteration.

use vstd::prelude::*;

verus! {

/// `r` is the largest integer whose square is at most `n`.
pub open spec fn is_root(n: nat, r: nat) -> bool {
    r * r <= n < (r + 1) * (r + 1)
}

/// One step towards the root.
pub open spec fn improved(n: nat, x: nat) -> nat {
    if x == 0 {
        0
    } else {
        (x + n / x) / 2
    }
}

/// How many steps are taken from `x` until one does not improve it.
pub open spec fn steps_from(n: nat, x: nat) -> nat
    decreases x,
{
    if improved(n, x) >= x {
        1
    } else {
        1 + steps_from(n, improved(n, x))
    }
}

/// How many steps are taken for a number.
pub open spec fn steps(n: nat) -> nat {
    if n <= 1 {
        0
    } else {
        steps_from(n, n)
    }
}

/// A step does not go below the root.
proof fn lemma_stays_above(n: nat, x: nat)
    requires
        x >= 1,
    ensures
        (improved(n, x) + 1) * (improved(n, x) + 1) > n,
        n >= 1 && x <= n ==> improved(n, x) >= 1,
{
    let q = (n / x) as int;
    let y = improved(n, x) as int;
    let xi = x as int;
    vstd::arithmetic::div_mod::lemma_fundamental_div_mod(n as int, xi);
    vstd::arithmetic::div_mod::lemma_mod_bound(n as int, xi);
    assert(n < xi * (q + 1)) by (nonlinear_arith)
        requires
            n == xi * q + (n as int % xi),
            n as int % xi < xi,
    ;
    assert(2 * (y + 1) >= xi + q + 1);
    assert(q >= 0) by {
        vstd::arithmetic::div_mod::lemma_div_pos_is_pos(n as int, xi);
    }
    assert((2 * (y + 1)) * (2 * (y + 1)) >= (xi + q + 1) * (xi + q + 1)) by (nonlinear_arith)
        requires
            2 * (y + 1) >= xi + q + 1,
            xi + q + 1 >= 0,
    ;
    assert((xi + q + 1) * (xi + q + 1) >= 4 * (xi * (q + 1))) by (nonlinear_arith);
    assert((2 * (y + 1)) * (2 * (y + 1)) == 4 * ((y + 1) * (y + 1))) by (nonlinear_arith);
    if n >= 1 && x <= n {
        assert(q >= 1) by (nonlinear_arith)
            requires
                n < xi * (q + 1),
                xi <= n,
                xi >= 1,
                q >= 0,
        ;
    }
}

/// A value that a step does not improve is not above the root.
proof fn lemma_converged(n: nat, x: nat)
    requires
        x >= 1,
        improved(n, x) >= x,
    ensures
        x * x <= n,
{
    let q = (n / x) as int;
    let xi = x as int;
    vstd::arithmetic::div_mod::lemma_fundamental_div_mod(n as int, xi);
    vstd::arithmetic::div_mod::lemma_mod_bound(n as int, xi);
    assert(q >= xi);
    assert(xi * xi <= xi * q) by (nonlinear_arith)
        requires
            q >= xi,
            xi >= 1,
    ;
}

/// The square root of a number, and how many steps it took.
pub fn isqrt(n: u32) -> (r: (u32, u32))
    ensures
        is_root(n as nat, r.0 as nat),
        r.1 == steps(n as nat),
{
    if n <= 1 {
        assert(is_root(n as nat, n as nat)) by (nonlinear_arith)
            requires
                n <= 1,
        ;
        return (n, 0);
    }
    let mut x: u32 = n;
    let mut count: u32 = 0;
    assert((n as nat + 1) * (n as nat + 1) > n) by (nonlinear_arith);
    proof {
        few_steps_are_enough(n as nat);
    }
    loop
        invariant_except_break
            count + steps_from(n as nat, x as nat) == steps(n as nat),
        invariant
            n > 1,
            1 <= x <= n,
            (x as nat + 1) * (x as nat + 1) > n,
            steps(n as nat) <= 33,
        ensures
            is_root(n as nat, x as nat),
            count == steps(n as nat),
        decreases x,
    {
        let next: u32 = ((x as u64 + (n / x) as u64) / 2) as u32;
        assert(n / x <= n) by (nonlinear_arith)
            requires
                x >= 1,
                n >= 0,
        ;
        assert(next == improved(n as nat, x as nat));
        proof {
            lemma_stays_above(n as nat, x as nat);
        }
        count = count + 1;
        if next >= x {
            proof {
                lemma_converged(n as nat, x as nat);
            }
            break;
        }
        x = next;
    }
    (x, count)
}

/// Above the root a step at least halves the distance to it.
proof fn lemma_halves(n: nat, x: nat, r: nat)
    requires
        is_root(n, r),
        x > r,
    ensures
        improved(n, x) <= (x + r) / 2,
        improved(n, x) < x,
{
    let q = (n / x) as int;
    let xi = x as int;
    let ri = r as int;
    vstd::arithmetic::div_mod::lemma_fundamental_div_mod(n as int, xi);
    vstd::arithmetic::div_mod::lemma_mod_bound(n as int, xi);
    assert(q <= ri) by (nonlinear_arith)
        requires
            xi * q <= n,
            n < (ri + 1) * (ri + 1),
            xi >= ri + 1,
            ri >= 0,
    ;
}

/// The powers of two.
pub open spec fn power(k: nat) -> nat
    decreases k,
{
    if k == 0 {
        1
    } else {
        2 * power((k - 1) as nat)
    }
}

proof fn lemma_steps_bound(n: nat, x: nat, r: nat, k: nat)
    requires
        is_root(n, r),
        r >= 1,
        x >= r,
        x - r < power(k),
    ensures
        steps_from(n, x) <= k + 1,
    decreases k,
{
    if improved(n, x) < x {
        if x == r {
            lemma_stays_above(n, x);
            let y = improved(n, x);
            assert((y + 1) * (y + 1) <= r * r) by (nonlinear_arith)
                requires
                    y + 1 <= r,
            ;
            assert(false);
        }
        lemma_halves(n, x, r);
        lemma_stays_above(n, x);
        let y = improved(n, x);
        assert(y >= r) by (nonlinear_arith)
            requires
                (y + 1) * (y + 1) > n,
                r * r <= n,
        ;
        if k > 0 {
            lemma_steps_bound(n, y, r, (k - 1) as nat);
        }
    }
}

proof fn lemma_root_exists(n: nat) -> (r: nat)
    ensures
        is_root(n, r),
    decreases n,
{
    if n == 0 {
        assert(is_root(0, 0)) by (nonlinear_arith);
        0
    } else {
        let r = lemma_root_exists((n - 1) as nat);
        if n == (r + 1) * (r + 1) {
            assert((r + 1) * (r + 1) < (r + 2) * (r + 2)) by (nonlinear_arith);
            r + 1
        } else {
            r
        }
    }
}

/// No number takes more than 33 steps.
pub proof fn few_steps_are_enough(n: nat)
    requires
        n <= u32::MAX,
    ensures
        steps(n) <= 33,
{
    if n > 1 {
        let r = lemma_root_exists(n);
        assert(r >= 1) by (nonlinear_arith)
            requires
                n > 1,
                n < (r + 1) * (r + 1),
        ;
        assert(r <= n) by (nonlinear_arith)
            requires
                r * r <= n,
                r >= 1,
        ;
        reveal_with_fuel(power, 33);
        lemma_steps_bound(n, n, r, 32);
    }
}

/// A number has one root only.
pub proof fn root_is_unique(n: nat, a: nat, b: nat)
    requires
        is_root(n, a),
        is_root(n, b),
    ensures
        a == b,
{
    assert(a == b) by (nonlinear_arith)
        requires
            a * a <= n,
            n < (a + 1) * (a + 1),
            b * b <= n,
            n < (b + 1) * (b + 1),
    ;
}

/// The roots of the first `count` numbers stand in `output`, and nothing else has changed.
pub open spec fn roots_of(input: Seq<u32>, count: int, before: Seq<u32>, output: Seq<u32>) -> bool {
    &&& output.len() == before.len()
    &&& forall|i: int| 0 <= i < count ==> is_root(input[i] as nat, #[trigger] output[i] as nat)
    &&& forall|i: int| count <= i < before.len() ==> #[trigger] output[i] == before[i]
}

/// The steps for the first `count` numbers stand in `iters`, and nothing else has changed.
pub open spec fn steps_of(input: Seq<u32>, count: int, before: Seq<u32>, iters: Seq<u32>) -> bool {
    &&& iters.len() == before.len()
    &&& forall|i: int| 0 <= i < count ==> #[trigger] iters[i] == steps(input[i] as nat)
    &&& forall|i: int| count <= i < before.len() ==> #[trigger] iters[i] == before[i]
}

/// Leaves the roots of the first `count` numbers, each with its steps.
fn find_roots(input: &Vec<u32>, output: &mut Vec<u32>, iters: &mut Vec<u32>, count: usize)
    requires
        count <= input@.len(),
        count <= old(output)@.len(),
        count <= old(iters)@.len(),
    ensures
        roots_of(input@, count as int, old(output)@, final(output)@),
        steps_of(input@, count as int, old(iters)@, final(iters)@),
{
    let ghost out = output@;
    let ghost its = iters@;
    for idx in 0..count
        invariant
            count <= input@.len(),
            count <= out.len(),
            count <= its.len(),
            roots_of(input@, idx as int, out, output@),
            steps_of(input@, idx as int, its, iters@),
    {
        let (root, n) = isqrt(input[idx]);
        output.set(idx, root);
        iters.set(idx, n);
    }
}

/// The first thread leaves the roots of the first `count` numbers, each with its steps, and
/// prints that it is done.
pub fn convergence_kernel(
    tid: u32,
    input: &Vec<u32>,
    output: &mut Vec<u32>,
    iters: &mut Vec<u32>,
    count: u32,
) -> (message: Option<&'static str>)
    requires
        tid == 0 ==> count <= input@.len(),
        tid == 0 ==> count <= old(output)@.len(),
        tid == 0 ==> count <= old(iters)@.len(),
    ensures
        match message {
            Some(m) => {
                &&& tid == 0
                &&& m@ == "convergence done"@
                &&& roots_of(input@, count as int, old(output)@, final(output)@)
                &&& steps_of(input@, count as int, old(iters)@, final(iters)@)
            },
            None => tid != 0 && final(output)@ == old(output)@ && final(iters)@ == old(iters)@,
        },
{
    if tid != 0 {
        return None;
    }
    find_roots(input, output, iters, count as usize);
    Some("convergence done")
}

/// Only zero and one take no step.
pub proof fn steps_are_needed_above_one(n: nat)
    ensures
        steps(n) == 0 <==> n <= 1,
{
}

/// The steps that are taken for all numbers together.
pub open spec fn total_steps(input: Seq<u32>) -> nat
    decreases input.len(),
{
    if input.len() == 0 {
        0
    } else {
        total_steps(input.drop_last()) + steps(input.last() as nat)
    }
}

/// Few steps are taken for all numbers together.
pub proof fn total_is_small(input: Seq<u32>)
    ensures
        total_steps(input) <= 33 * input.len(),
    decreases input.len(),
{
    if input.len() > 0 {
        total_is_small(input.drop_last());
        few_steps_are_enough(input.last() as nat);
    }
}

proof fn lemma_total_grows(input: Seq<u32>, n: int)
    requires
        0 <= n <= input.len(),
    ensures
        total_steps(input.take(n)) <= total_steps(input),
    decreases input.len() - n,
{
    if n < input.len() {
        assert(input.take(n + 1).drop_last() =~= input.take(n));
        lemma_total_grows(input, n + 1);
    } else {
        assert(input.take(n) =~= input);
    }
}

/// The first thread leaves the roots of the first `count` numbers, each with its steps, and
/// the steps that were taken together. It prints a message at the start and one at the end.
pub fn autonomous_pipeline_kernel(
    tid: u32,
    input: &Vec<u32>,
    output: &mut Vec<u32>,
    iters: &mut Vec<u32>,
    total_iters: &mut u32,
    count: u32,
) -> (messages: Option<(&'static str, &'static str)>)
    requires
        tid == 0 ==> count <= input@.len(),
        tid == 0 ==> count <= old(output)@.len(),
        tid == 0 ==> count <= old(iters)@.len(),
        tid == 0 ==> total_steps(input@.take(count as int)) <= u32::MAX,
    ensures
        match messages {
            Some((first, last)) => {
                &&& tid == 0
                &&& first@ == "autonomous pipeline start"@
                &&& last@ == "autonomous pipeline done"@
                &&& roots_of(input@, count as int, old(output)@, final(output)@)
                &&& steps_of(input@, count as int, old(iters)@, final(iters)@)
                &&& *final(total_iters) == total_steps(input@.take(count as int))
            },
            None => {
                &&& tid != 0
                &&& final(output)@ == old(output)@
                &&& final(iters)@ == old(iters)@
                &&& *final(total_iters) == *old(total_iters)
            },
        },
{
    if tid != 0 {
        return None;
    }
    find_roots(input, output, iters, count as usize);
    let mut total: u32 = 0;
    let ghost part = input@.take(count as int);
    assert(part.take(0) =~= Seq::<u32>::empty());
    for idx in 0..count
        invariant
            count <= input@.len(),
            part == input@.take(count as int),
            part.len() == count,
            count <= iters@.len(),
            forall|i: int| 0 <= i < count ==> #[trigger] iters@[i] == steps(input@[i] as nat),
            total_steps(part) <= u32::MAX,
            total == total_steps(part.take(idx as int)),
    {
        proof {
            assert(part.take(idx + 1).drop_last() =~= part.take(idx as int));
            assert(part.take(idx + 1).last() == input@[idx as int]);
            lemma_total_grows(part, idx + 1);
        }
        total = total + iters[idx as usize];
    }
    assert(part.take(count as int) =~= part);
    *total_iters = total;
    Some(("autonomous pipeline start", "autonomous pipeline done"))
}

} // verus!
