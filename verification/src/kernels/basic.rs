//! Threads, and the kernels that try out single instructions.

use vstd::prelude::*;

use crate::scalar::Scalar;

verus! {

/// A thread of a launch with blocks of `block_dim` threads.
#[derive(Clone, Copy, Debug, PartialEq, Eq, Structural)]
pub struct Thread {
    pub block: u32,
    pub block_dim: u32,
    pub tid: u32,
}

impl Thread {
    /// The thread's number in the launch.
    pub open spec fn gid(self) -> int {
        self.block * self.block_dim + self.tid
    }

    /// The threads of the launch can be numbered in 32 bits.
    pub open spec fn fits(self) -> bool {
        self.gid() <= u32::MAX
    }

    /// The thread's number in the launch.
    pub fn index(&self) -> (r: u32)
        requires
            self.fits(),
        ensures
            r == self.gid(),
    {
        proof {
            let (b, d) = (self.block as int, self.block_dim as int);
            assert(0 <= b * d) by (nonlinear_arith)
                requires
                    0 <= b,
                    0 <= d,
            ;
        }
        self.block * self.block_dim + self.tid
    }
}

/// A buffer after thread `gid` wrote `value` at its own place, if it has one among
/// the first `len`.
pub open spec fn written<T>(buffer: Seq<T>, gid: int, len: int, value: T) -> Seq<T> {
    if gid < len {
        buffer.update(gid, value)
    } else {
        buffer
    }
}

/// How many blocks of `block_dim` threads cover `n` elements.
pub open spec fn blocks_for(n: int, block_dim: int) -> int {
    (n + block_dim - 1) / block_dim
}

/// How many blocks of `block_dim` threads cover `n` elements.
pub fn grid_for(n: usize, block_dim: usize) -> (r: usize)
    requires
        block_dim > 0,
        n + block_dim - 1 <= usize::MAX,
    ensures
        r == blocks_for(n as int, block_dim as int),
{
    (n + (block_dim - 1)) / block_dim
}

/// In a launch of so many blocks every element has a thread.
pub proof fn grid_covers_each_element(n: int, block_dim: int, i: int)
    requires
        block_dim > 0,
        0 <= i < n,
    ensures
        0 <= i / block_dim < blocks_for(n, block_dim),
        0 <= i % block_dim < block_dim,
        (i / block_dim) * block_dim + i % block_dim == i,
{
    vstd::arithmetic::div_mod::lemma_fundamental_div_mod(i, block_dim);
    let q = i / block_dim;
    assert(block_dim * q == q * block_dim) by (nonlinear_arith);
    assert(i / block_dim >= 0 && i % block_dim >= 0) by (nonlinear_arith)
        requires
            i >= 0,
            block_dim > 0,
    ;
    let b = (n + block_dim - 1) / block_dim;
    vstd::arithmetic::div_mod::lemma_fundamental_div_mod(n + block_dim - 1, block_dim);
    let m = (n + block_dim - 1) % block_dim;
    assert(b > q) by (nonlinear_arith)
        requires
            block_dim * b + m == n + block_dim - 1,
            0 <= m < block_dim,
            block_dim * q <= i < n,
            block_dim > 0,
    ;
}

/// No two threads of a launch have the same element.
pub proof fn threads_do_not_share_elements(a: Thread, b: Thread)
    requires
        a.block_dim == b.block_dim,
        a.tid < a.block_dim,
        b.tid < b.block_dim,
        a.gid() == b.gid(),
    ensures
        a == b,
{
    let d = a.block_dim as int;
    let (ab, bb) = (a.block as int, b.block as int);
    assert(ab * d == d * ab && bb * d == d * bb) by (nonlinear_arith);
    vstd::arithmetic::div_mod::lemma_fundamental_div_mod_converse(a.gid(), d, ab, a.tid as int);
    vstd::arithmetic::div_mod::lemma_fundamental_div_mod_converse(b.gid(), d, bb, b.tid as int);
}

/// Writes the same mark for every thread.
pub fn test_asm_membar_sys(at: &Thread, output: &mut Vec<u32>, len: u32)
    requires
        at.fits(),
        len <= old(output)@.len(),
    ensures
        final(output)@ == written(old(output)@, at.gid(), len as int, 0xDEAD_BEEFu32),
{
    let idx: u32 = at.index();
    if idx < len {
        output.set(idx as usize, 0xDEAD_BEEF);
    }
}

/// Writes every thread's number.
pub fn write_thread_idx(at: &Thread, output: &mut Vec<u32>, len: u32)
    requires
        at.fits(),
        len <= old(output)@.len(),
    ensures
        final(output)@ == written(old(output)@, at.gid(), len as int, at.gid() as u32),
{
    let idx: u32 = at.index();
    if idx < len {
        output.set(idx as usize, idx);
    }
}

/// Writes the mask of active lanes for every thread.
pub fn test_activemask(at: &Thread, mask: u32, output: &mut Vec<u32>, len: u32)
    requires
        at.fits(),
        len <= old(output)@.len(),
    ensures
        final(output)@ == written(old(output)@, at.gid(), len as int, mask),
{
    let idx: u32 = at.index();
    if idx < len {
        output.set(idx as usize, mask);
    }
}

/// Writes every thread's lane.
pub fn test_lane_id(at: &Thread, lane: u32, output: &mut Vec<u32>, len: u32)
    requires
        at.fits(),
        len <= old(output)@.len(),
    ensures
        final(output)@ == written(old(output)@, at.gid(), len as int, lane),
{
    let idx: u32 = at.index();
    if idx < len {
        output.set(idx as usize, lane);
    }
}

/// Adds two vectors.
pub fn vector_add<S: Scalar>(at: &Thread, a: &Vec<S>, b: &Vec<S>, c: &mut Vec<S>, len: u32)
    requires
        at.fits(),
        len <= a@.len(),
        len <= b@.len(),
        len <= old(c)@.len(),
    ensures
        final(c)@ == written(
            old(c)@,
            at.gid(),
            len as int,
            S::sum(a@[at.gid()], b@[at.gid()]),
        ),
{
    let idx: u32 = at.index();
    if idx < len {
        let val = a[idx as usize].plus(&b[idx as usize]);
        c.set(idx as usize, val);
    }
}

/// A store that an integration test orders: first the value, then the flag.
#[derive(Clone, Copy, Debug, PartialEq, Eq, Structural)]
pub enum Store {
    Data(u32),
    Flag(u32),
}

/// The stores of a thread of the producer kernel: the first thread publishes the
/// value and raises the flag after it, the others store nothing.
pub fn integration_sys_store(at: &Thread, value: u32) -> (stores: Vec<Store>)
    requires
        at.fits(),
    ensures
        stores@ == if at.gid() == 0 {
            seq![Store::Data(value), Store::Flag(1)]
        } else {
            Seq::empty()
        },
{
    let mut stores: Vec<Store> = Vec::new();
    if at.index() == 0 {
        stores.push(Store::Data(value));
        stores.push(Store::Flag(1));
        assert(stores@ =~= seq![Store::Data(value), Store::Flag(1)]);
    } else {
        assert(stores@ =~= Seq::<Store>::empty());
    }
    stores
}

/// A 64-bit word from its halves.
pub open spec fn joined(hi: u32, lo: u32) -> u64 {
    (hi * 0x1_0000_0000 + lo) as u64
}

/// A 64-bit word from its halves, as kernel parameters carry it.
pub fn join_words(hi: u32, lo: u32) -> (r: u64)
    ensures
        r == joined(hi, lo),
{
    let r: u64 = (hi as u64) << 32 | lo as u64;
    assert(r == hi * 0x1_0000_0000 + lo) by (bit_vector)
        requires
            r == (hi as u64) << 32 | lo as u64,
    ;
    r
}

/// Stores a word.
pub fn test_asm_st_release_sys(cell: &mut u32, val: u32)
    ensures
        *final(cell) == val,
{
    *cell = val;
}

/// Stores a word.
pub fn test_write_volatile(cell: &mut u32, val: u32)
    ensures
        *final(cell) == val,
{
    *cell = val;
}

/// Loads a word and stores it elsewhere.
pub fn test_asm_ld_acquire_sys(cell: &u32, output: &mut u32)
    ensures
        *final(output) == *cell,
{
    *output = *cell;
}

/// Loads a word and stores it elsewhere.
pub fn test_read_volatile(cell: &u32, output: &mut u32)
    ensures
        *final(output) == *cell,
{
    *output = *cell;
}

/// Loads a word and stores it elsewhere.
pub fn test_spin_load_u32(cell: &u32, output: &mut u32)
    ensures
        *final(output) == *cell,
{
    *output = *cell;
}

/// Swaps in `desired` if the word is `expected`, and reports the word that was there.
pub fn test_asm_cas_sys(cell: &mut u32, expected: u32, desired: u32, output: &mut u32)
    ensures
        *final(output) == *old(cell),
        *final(cell) == if *old(cell) == expected {
            desired
        } else {
            *old(cell)
        },
{
    *output = *cell;
    if *cell == expected {
        *cell = desired;
    }
}

/// Swaps in a 64-bit word if the word there is the expected one, and reports the
/// word that was there.
pub fn test_u64_cas(
    cell: &mut u64,
    expected_lo: u32,
    expected_hi: u32,
    desired_lo: u32,
    desired_hi: u32,
    output: &mut u64,
)
    ensures
        *final(output) == *old(cell),
        *final(cell) == if *old(cell) == joined(expected_hi, expected_lo) {
            joined(desired_hi, desired_lo)
        } else {
            *old(cell)
        },
{
    let expected: u64 = join_words(expected_hi, expected_lo);
    let desired: u64 = join_words(desired_hi, desired_lo);
    *output = *cell;
    if *cell == expected {
        *cell = desired;
    }
}

/// Adds a 64-bit word, modulo its range, and reports the word that was there.
pub fn test_u64_fetch_add(cell: &mut u64, val_lo: u32, val_hi: u32, output: &mut u64)
    ensures
        *final(output) == *old(cell),
        *final(cell) == (*old(cell) + joined(val_hi, val_lo)) % 0x1_0000_0000_0000_0000,
{
    let val: u64 = join_words(val_hi, val_lo);
    *output = *cell;
    *cell = cell.wrapping_add(val);
}

/// Puts a 64-bit word in place of the one that was there, and reports that one.
pub fn test_u64_exchange(cell: &mut u64, val_lo: u32, val_hi: u32, output: &mut u64)
    ensures
        *final(output) == *old(cell),
        *final(cell) == joined(val_hi, val_lo),
{
    *output = *cell;
    *cell = join_words(val_hi, val_lo);
}

/// A buffer after the first `n` threads of a launch wrote their own elements.
pub open spec fn all_written<T>(
    buffer: Seq<T>,
    len: int,
    value: spec_fn(int) -> T,
    n: nat,
) -> Seq<T>
    decreases n,
{
    if n == 0 {
        buffer
    } else {
        written(
            all_written(buffer, len, value, (n - 1) as nat),
            n - 1,
            len,
            value(n - 1),
        )
    }
}

proof fn lemma_all_written<T>(buffer: Seq<T>, len: int, value: spec_fn(int) -> T, n: nat)
    requires
        0 <= len <= buffer.len(),
    ensures
        all_written(buffer, len, value, n) == Seq::new(
            buffer.len(),
            |i: int|
                if i < len && i < n {
                    value(i)
                } else {
                    buffer[i]
                },
        ),
    decreases n,
{
    if n > 0 {
        lemma_all_written(buffer, len, value, (n - 1) as nat);
    }
    assert(all_written(buffer, len, value, n) =~= Seq::new(
        buffer.len(),
        |i: int|
            if i < len && i < n {
                value(i)
            } else {
                buffer[i]
            },
    ));
}

/// A launch with at least as many threads as elements fills the buffer: every element has
/// the value that its own thread gave it, and what lies behind them is kept.
pub proof fn launches_fill_the_buffer<T>(
    buffer: Seq<T>,
    len: int,
    value: spec_fn(int) -> T,
    n: nat,
)
    requires
        0 <= len <= buffer.len(),
        len <= n,
    ensures
        all_written(buffer, len, value, n) == Seq::new(
            buffer.len(),
            |i: int|
                if i < len {
                    value(i)
                } else {
                    buffer[i]
                },
        ),
{
    lemma_all_written(buffer, len, value, n);
    assert(all_written(buffer, len, value, n) =~= Seq::new(
        buffer.len(),
        |i: int|
            if i < len {
                value(i)
            } else {
                buffer[i]
            },
    ));
}

/// A whole number as an element.
pub open spec fn number<S: Scalar>(n: nat) -> S {
    S::count_value(n)
}

/// The sum of `i * (i + 4)` for the first `n` numbers from 1 on, as the arithmetic gives it.
pub open spec fn small_dot<S: Scalar>(n: nat) -> S
    decreases n,
{
    if n == 0 {
        crate::scalar::zero()
    } else {
        S::sum(small_dot((n - 1) as nat), S::product(number(n), number(n + 4)))
    }
}

/// What the arithmetic kernel leaves: 3 + 4, 3 * 4, 10 / 4, the root of 9, a dot product,
/// the length of (3, 4), and the cosines of two right and two equal vectors.
pub open spec fn math_values<S: Scalar>() -> Seq<S> {
    let unit = S::product(number(1), number(1));
    seq![
        S::sum(number(3), number(4)),
        S::product(number(3), number(4)),
        S::quotient(number(10), number(4)),
        S::root(number(9)),
        small_dot(4),
        S::root(S::sum(S::product(number(3), number(3)), S::product(number(4), number(4)))),
        S::quotient(number(0), unit),
        S::quotient(number(1), unit),
    ]
}

/// Tries the arithmetic: the first thread leaves eight results.
pub fn f32_math_test<S: Scalar>(tid: u32, output: &mut Vec<S>)
    requires
        old(output)@.len() >= 8,
    ensures
        final(output)@ == if tid == 0 {
            math_values::<S>() + old(output)@.skip(8)
        } else {
            old(output)@
        },
{
    if tid != 0 {
        return;
    }
    let a = S::from_count(3);
    let b = S::from_count(4);
    output.set(0, a.plus(&b));
    output.set(1, a.times(&b));
    output.set(2, S::from_count(10).over(&b));
    output.set(3, S::from_count(9).sqrt());
    let mut dot = S::constant(crate::scalar::Constant::Zero);
    for i in 0..4usize
        invariant
            dot == small_dot::<S>(i as nat),
    {
        dot = dot.plus(&S::from_count(i + 1).times(&S::from_count(i + 5)));
    }
    output.set(4, dot);
    output.set(5, a.times(&a).plus(&b.times(&b)).sqrt());
    let unit = S::from_count(1).times(&S::from_count(1));
    output.set(6, S::from_count(0).over(&unit));
    output.set(7, S::from_count(1).over(&unit));
    assert(output@ =~= math_values::<S>() + old(output)@.skip(8));
}

} // verus!
