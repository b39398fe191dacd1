//! Sums of products over vectors.

use vstd::prelude::*;

use crate::bytes::{read_word, word_at};
use crate::scalar::{zero, Constant, Scalar};

verus! {

/// The sum of the first `n` products, added up from the left.
pub open spec fn dot<S: Scalar>(a: Seq<S>, b: Seq<S>, n: nat) -> S
    decreases n,
{
    if n == 0 {
        zero()
    } else {
        S::sum(dot(a, b, (n - 1) as nat), S::product(a[n - 1], b[n - 1]))
    }
}

/// The sum of the first `n` products.
pub fn dot_product<S: Scalar>(a: &Vec<S>, b: &Vec<S>, n: usize) -> (r: S)
    requires
        n <= a@.len(),
        n <= b@.len(),
    ensures
        r == dot(a@, b@, n as nat),
{
    let mut acc = S::constant(Constant::Zero);
    for i in 0..n
        invariant
            n <= a@.len(),
            n <= b@.len(),
            acc == dot(a@, b@, i as nat),
    {
        acc = acc.plus(&a[i].times(&b[i]));
    }
    acc
}

/// `n` elements as they lie in memory from `at` on.
pub open spec fn elements<S: Scalar>(data: Seq<u8>, at: int, n: nat) -> Seq<S> {
    Seq::new(n, |i: int| S::decoded(word_at(data, at + 4 * i)))
}

/// Reads `n` elements from memory.
pub fn read_elements<S: Scalar>(data: &Vec<u8>, at: usize, n: usize) -> (r: Vec<S>)
    requires
        at + 4 * n <= data@.len(),
    ensures
        r@ == elements::<S>(data@, at as int, n as nat),
{
    let size: usize = data.len();
    let mut r: Vec<S> = Vec::new();
    for i in 0..n
        invariant
            size == data@.len(),
            at + 4 * n <= size,
            r@ == elements::<S>(data@, at as int, i as nat),
    {
        r.push(S::from_bits(read_word(data.as_slice(), at + 4 * i)));
    }
    r
}

} // verus!
