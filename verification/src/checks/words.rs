//! Checks on words that kernels left in memory.

use vstd::prelude::*;

use crate::checks::messages::Finding;

verus! {

/// How many of the first `n` words differ from what is expected.
pub open spec fn differing(words: Seq<u32>, expected: Seq<u32>, n: nat) -> nat
    decreases n,
{
    if n == 0 {
        0
    } else {
        differing(words, expected, (n - 1) as nat) + if words[n - 1] != expected[n - 1] {
            1nat
        } else {
            0nat
        }
    }
}

/// Counts the words that differ from what is expected.
pub fn count_differing(words: &Vec<u32>, expected: &Vec<u32>) -> (r: usize)
    requires
        words@.len() == expected@.len(),
    ensures
        r == differing(words@, expected@, words@.len()),
{
    let mut r: usize = 0;
    for i in 0..words.len()
        invariant
            words@.len() == expected@.len(),
            r <= i,
            r == differing(words@, expected@, i as nat),
    {
        if words[i] != expected[i] {
            r += 1;
        }
    }
    r
}

/// None of the words differ exactly if they are the expected ones.
pub proof fn no_difference_means_equal(words: Seq<u32>, expected: Seq<u32>)
    requires
        words.len() == expected.len(),
    ensures
        differing(words, expected, words.len()) == 0 <==> words == expected,
{
    lemma_no_difference(words, expected, words.len());
    if differing(words, expected, words.len()) == 0 {
        assert(words =~= expected);
    }
}

proof fn lemma_no_difference(words: Seq<u32>, expected: Seq<u32>, n: nat)
    requires
        n <= words.len(),
        words.len() == expected.len(),
    ensures
        differing(words, expected, n) == 0 <==> (forall|i: int|
            0 <= i < n ==> words[i] == expected[i]),
    decreases n,
{
    if n > 0 {
        lemma_no_difference(words, expected, (n - 1) as nat);
    }
}

/// The sum of words.
pub open spec fn word_sum(words: Seq<u32>) -> int
    decreases words.len(),
{
    if words.len() == 0 {
        0
    } else {
        word_sum(words.drop_last()) + words.last()
    }
}

/// The sum of the words whose place is even, if `parity` is 0, or odd, if it is 1.
pub open spec fn parity_sum(words: Seq<u32>, parity: int) -> int
    decreases words.len(),
{
    if words.len() == 0 {
        0
    } else {
        parity_sum(words.drop_last(), parity) + if (words.len() - 1) % 2 == parity {
            words.last() as int
        } else {
            0
        }
    }
}

proof fn lemma_parity_sum(words: Seq<u32>)
    ensures
        parity_sum(words, 0) + parity_sum(words, 1) == word_sum(words),
        parity_sum(words, 0) >= 0,
        parity_sum(words, 1) >= 0,
    decreases words.len(),
{
    if words.len() > 0 {
        lemma_parity_sum(words.drop_last());
    }
}

/// The words at even and at odd places add up to all words.
pub proof fn places_are_even_or_odd(words: Seq<u32>)
    ensures
        parity_sum(words, 0) + parity_sum(words, 1) == word_sum(words),
{
    lemma_parity_sum(words);
}

proof fn lemma_sum_grows(words: Seq<u32>, n: int)
    requires
        0 <= n <= words.len(),
    ensures
        0 <= word_sum(words.take(n)) <= word_sum(words),
    decreases words.len() - n,
{
    if n < words.len() {
        assert(words.take(n + 1).drop_last() =~= words.take(n));
        lemma_sum_grows(words, n + 1);
        lemma_sum_nonnegative(words.take(n));
    } else {
        assert(words.take(n) =~= words);
        lemma_sum_nonnegative(words);
    }
}

proof fn lemma_sum_nonnegative(words: Seq<u32>)
    ensures
        word_sum(words) >= 0,
    decreases words.len(),
{
    if words.len() > 0 {
        lemma_sum_nonnegative(words.drop_last());
    }
}

/// What the allocation kernels leave: the sum of the words at even places, that at odd
/// places, and that of all words.
pub fn expected_sums(words: &Vec<u32>) -> (r: (u32, u32, u32))
    requires
        word_sum(words@) <= u32::MAX,
    ensures
        r.0 == parity_sum(words@, 0),
        r.1 == parity_sum(words@, 1),
        r.2 == word_sum(words@),
{
    let mut even: u32 = 0;
    let mut odd: u32 = 0;
    assert(words@.take(0) =~= Seq::<u32>::empty());
    for i in 0..words.len()
        invariant
            word_sum(words@) <= u32::MAX,
            even == parity_sum(words@.take(i as int), 0),
            odd == parity_sum(words@.take(i as int), 1),
    {
        proof {
            assert(words@.take(i + 1).drop_last() =~= words@.take(i as int));
            lemma_parity_sum(words@.take(i as int));
            lemma_sum_grows(words@, i + 1);
        }
        if i % 2 == 0 {
            even = even + words[i];
        } else {
            odd = odd + words[i];
        }
    }
    proof {
        assert(words@.take(words@.len() as int) =~= words@);
        lemma_parity_sum(words@);
    }
    (even, odd, even + odd)
}

/// What a lane leaves after the first switch to its own work: its square and one.
pub fn hybrid_expected(lane: u32) -> (r: u32)
    requires
        lane < 32,
    ensures
        r == lane * lane + 1,
{
    assert(0 <= lane * lane <= 961) by (nonlinear_arith)
        requires
            lane < 32,
    ;
    lane * lane + 1
}

/// The sum of the numbers up to `n`.
pub open spec fn sum_to(n: nat) -> nat
    decreases n,
{
    if n == 0 {
        0
    } else {
        sum_to((n - 1) as nat) + n
    }
}

proof fn lemma_sum_to(n: nat)
    ensures
        sum_to(n) * 2 == n * (n + 1),
    decreases n,
{
    if n > 0 {
        lemma_sum_to((n - 1) as nat);
        assert((n - 1) * n + 2 * n == n * (n + 1)) by (nonlinear_arith);
    } else {
        assert(n * (n + 1) == 0) by (nonlinear_arith)
            requires
                n == 0,
        ;
    }
}

/// What a lane leaves in the first part of the stress test: the sum of the numbers up to
/// one more than a hundred times its own number.
pub fn stress_sum_expected(lane: u32) -> (r: u32)
    requires
        lane < 32,
    ensures
        r == sum_to((lane * 100 + 1) as nat),
{
    let n: u32 = lane * 100 + 1;
    proof {
        lemma_sum_to(n as nat);
        assert(0 <= n * (n + 1) <= 3101 * 3102) by (nonlinear_arith)
            requires
                0 <= n <= 3101,
        ;
        assert(n as nat * (n as nat + 1) == n * (n + 1)) by (nonlinear_arith);
    }
    n * (n + 1) / 2
}

/// One step of the generator of the stress test.
pub open spec fn xorshift(v: u32) -> u32 {
    let a = v ^ (v << 13u32);
    let b = a ^ (a >> 17u32);
    b ^ (b << 5u32)
}

/// A number of steps of the generator.
pub open spec fn xorshifted(v: u32, n: nat) -> u32
    decreases n,
{
    if n == 0 {
        v
    } else {
        xorshift(xorshifted(v, (n - 1) as nat))
    }
}

/// What a lane leaves in the second part of the stress test: its seed after fifty steps of
/// the generator, times one more than its own number.
pub fn stress_xorshift_expected(lane: u32) -> (r: u32)
    requires
        lane < 32,
    ensures
        r == xorshifted(0xDEAD_0000u32 | lane, ((lane + 1) * 50) as nat),
{
    let mut val: u32 = 0xDEAD_0000u32 | lane;
    let ghost seed = val;
    for i in 0..(lane + 1) * 50
        invariant
            val == xorshifted(seed, i as nat),
    {
        val = val ^ (val << 13u32);
        val = val ^ (val >> 17u32);
        val = val ^ (val << 5u32);
    }
    val
}

/// What each thread leaves after it swapped with its neighbour: the neighbour's number and
/// one.
pub fn swapped_expected(tid: u32) -> (r: u32)
    requires
        tid < u32::MAX - 1,
    ensures
        r == if tid % 2 == 0 {
            tid + 2
        } else {
            tid as int
        },
{
    if tid % 2 == 0 {
        tid + 2
    } else {
        tid
    }
}

/// How many pointers are null.
pub open spec fn nulls(pointers: Seq<u64>) -> nat
    decreases pointers.len(),
{
    if pointers.len() == 0 {
        0
    } else {
        nulls(pointers.drop_last()) + if pointers.last() == 0 {
            1nat
        } else {
            0nat
        }
    }
}

/// Two blocks of 64 bytes lie apart.
pub open spec fn apart(a: u64, b: u64) -> bool {
    a + 64 <= b || b + 64 <= a
}

/// All blocks of 64 bytes lie apart.
pub open spec fn all_apart(pointers: Seq<u64>) -> bool {
    forall|i: int, j: int|
        0 <= i < j < pointers.len() ==> apart(#[trigger] pointers[i], #[trigger] pointers[j])
}

/// Threads that allocate at the same time get blocks of their own: no pointer is null, and
/// no two blocks of 64 bytes overlap.
pub fn check_pointers(pointers: &Vec<u64>) -> (r: Finding)
    ensures
        r == if nulls(pointers@) > 0 {
            Finding::NoSuccess
        } else if all_apart(pointers@) {
            Finding::Passed
        } else {
            Finding::WrongNumber
        },
{
    let mut null: bool = false;
    assert(pointers@.take(0) =~= Seq::<u64>::empty());
    for i in 0..pointers.len()
        invariant
            null == (nulls(pointers@.take(i as int)) > 0),
    {
        assert(pointers@.take(i + 1).drop_last() =~= pointers@.take(i as int));
        if pointers[i] == 0 {
            null = true;
        }
    }
    assert(pointers@.take(pointers@.len() as int) =~= pointers@);
    if null {
        return Finding::NoSuccess;
    }
    for i in 0..pointers.len()
        invariant
            forall|a: int, b: int|
                0 <= a < b < pointers@.len() && a < i ==> apart(
                    #[trigger] pointers@[a],
                    #[trigger] pointers@[b],
                ),
            nulls(pointers@) == 0,
    {
        let size: usize = pointers.len();
        for j in i + 1..size
            invariant
                i < size,
                size == pointers@.len(),
                forall|b: int|
                    i < b < j ==> apart(pointers@[i as int], #[trigger] pointers@[b]),
                nulls(pointers@) == 0,
        {
            let (low, high): (u64, u64) = if pointers[i] < pointers[j] {
                (pointers[i], pointers[j])
            } else {
                (pointers[j], pointers[i])
            };
            if high - low < 64 {
                assert(!apart(pointers@[i as int], pointers@[j as int]));
                return Finding::WrongNumber;
            }
        }
    }
    Finding::Passed
}

} // verus!
