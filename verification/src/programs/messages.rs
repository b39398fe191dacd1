//! What programs print.

use vstd::prelude::*;

use crate::kernels::basic::Thread;
use crate::text::{append, decimal, digit, to_decimal};

verus! {

/// A name and a number in decimal.
pub open spec fn numbered(name: Seq<u8>, n: u32) -> Seq<u8> {
    name + decimal(n as nat)
}

/// Appends a number in decimal to a name.
fn append_number(name: Vec<u8>, n: u32) -> (r: Vec<u8>)
    ensures
        r@ == numbered(name@, n),
{
    let mut r = name;
    let number: Vec<u8> = to_decimal(n as u64);
    append(&mut r, number.as_slice());
    r
}

/// The text `Block `.
pub open spec fn block_name() -> Seq<u8> {
    seq![66, 108, 111, 99, 107, 32]
}

/// The text `Shard `.
pub open spec fn shard_name() -> Seq<u8> {
    seq![83, 104, 97, 114, 100, 32]
}

/// The text `Hello from GPU!`.
pub open spec fn hello() -> Seq<u8> {
    seq![72, 101, 108, 108, 111, 32, 102, 114, 111, 109, 32, 71, 80, 85, 33]
}

/// The first thread of a launch prints a greeting.
pub fn hostcall_print_hello(at: &Thread) -> (message: Option<Vec<u8>>)
    requires
        at.fits(),
    ensures
        match message {
            Some(m) => at.gid() == 0 && m@ == hello(),
            None => at.gid() != 0,
        },
{
    if at.index() != 0 {
        return None;
    }
    let m: Vec<u8> = vec![72, 101, 108, 108, 111, 32, 102, 114, 111, 109, 32, 71, 80, 85, 33];
    assert(m@ =~= hello());
    Some(m)
}

/// What the first thread leaves after its greeting: one if it was printed, zero if not.
pub fn hello_result(ok: bool) -> (r: u32)
    ensures
        r == if ok {
            1u32
        } else {
            0u32
        },
{
    if ok {
        1
    } else {
        0
    }
}

/// What the first thread leaves after it handed a buffer of messages to the host: one if they
/// were printed, zero if not.
pub fn buffered_print_result(ok: bool) -> (r: u32)
    ensures
        r == if ok {
            1u32
        } else {
            0u32
        },
{
    hello_result(ok)
}

/// The first thread of each block prints the block's number.
pub fn hostcall_print_multi(at: &Thread) -> (message: Option<Vec<u8>>)
    ensures
        match message {
            Some(m) => at.tid == 0 && m@ == numbered(block_name(), at.block),
            None => at.tid != 0,
        },
{
    if at.tid != 0 {
        return None;
    }
    let name: Vec<u8> = vec![66, 108, 111, 99, 107, 32];
    assert(name@ =~= block_name());
    Some(append_number(name, at.block))
}

/// The first thread of each block prints the number of its shard.
pub fn sharded_print_test(at: &Thread) -> (message: Option<Vec<u8>>)
    ensures
        match message {
            Some(m) => at.tid == 0 && m@ == numbered(shard_name(), at.block),
            None => at.tid != 0,
        },
{
    if at.tid != 0 {
        return None;
    }
    let name: Vec<u8> = vec![83, 104, 97, 114, 100, 32];
    assert(name@ =~= shard_name());
    Some(append_number(name, at.block))
}

/// A counter of successes after one more attempt. It starts over after the largest number.
pub fn count_success(count: u32, ok: bool) -> (r: u32)
    ensures
        r == if ok {
            (count + 1) % 0x1_0000_0000
        } else {
            count as int
        },
{
    if ok {
        count.wrapping_add(1)
    } else {
        count
    }
}

proof fn lemma_last_digit(n: nat)
    ensures
        decimal(n).len() >= 1,
        decimal(n).last() == digit((n % 10) as int),
{
}

proof fn lemma_decimal_apart(a: nat, b: nat)
    requires
        decimal(a) == decimal(b),
    ensures
        a == b,
    decreases a,
{
    lemma_last_digit(a);
    lemma_last_digit(b);
    assert(a % 10 == b % 10);
    if a < 10 {
        if b >= 10 {
            lemma_last_digit(b / 10);
        }
    } else {
        lemma_last_digit(a / 10);
        if b >= 10 {
            assert(decimal(a).drop_last() =~= decimal(a / 10));
            assert(decimal(b).drop_last() =~= decimal(b / 10));
            lemma_decimal_apart(a / 10, b / 10);
        }
    }
}

/// Different blocks print different messages.
pub proof fn blocks_are_told_apart(name: Seq<u8>, a: u32, b: u32)
    requires
        numbered(name, a) == numbered(name, b),
    ensures
        a == b,
{
    let n = name.len() as int;
    assert(numbered(name, a).skip(n) =~= decimal(a as nat));
    assert(numbered(name, b).skip(n) =~= decimal(b as nat));
    lemma_decimal_apart(a as nat, b as nat);
}

/// The messages fit into a packet.
pub proof fn messages_fit(n: u32)
    ensures
        numbered(block_name(), n).len() <= 16,
        numbered(shard_name(), n).len() <= 16,
        hello().len() == 15,
{
    reveal_with_fuel(decimal, 10);
}

} // verus!
