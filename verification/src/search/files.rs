//! The files of a search.
//!
//! A database is `[N][dim]` and then the vectors; a query is `[dim]` and one
//! vector, a batch of queries `[count][dim]` and then the vectors. Results are
//! `[K]` and then K pairs of a number and a score; those of a batch are
//! `[count][K]` and then such pairs for each query. All are little-endian 32-bit
//! words.

use vstd::prelude::*;

use crate::bytes::{encode_words, read_word, word_at, words_are_read_back, words_bytes};
use crate::scalar::Scalar;
use crate::search::topk::{TopKEntry, VS_K};

verus! {

/// The dimensions of a vector.
pub const VS_DIM: usize = 128;

/// The bytes of a vector.
pub const VS_VEC_BYTES: usize = 512;

/// All components of a sequence of vectors, one vector after the other.
pub open spec fn components(vectors: Seq<Vec<u32>>) -> Seq<u32> {
    Seq::new(vectors.len() * 128, |i: int| vectors[i / 128]@[i % 128])
}

/// The words of a file of vectors: a count, the dimensions, and the components.
pub open spec fn vector_file(vectors: Seq<Vec<u32>>) -> Seq<u32> {
    seq![vectors.len() as u32, 128u32] + components(vectors)
}

/// Every vector has all its components.
pub open spec fn full_vectors(vectors: Seq<Vec<u32>>) -> bool {
    forall|i: int| 0 <= i < vectors.len() ==> (#[trigger] vectors[i])@.len() == 128
}

fn append_vectors(words: &mut Vec<u32>, vectors: &Vec<Vec<u32>>)
    requires
        full_vectors(vectors@),
    ensures
        final(words)@ == old(words)@ + components(vectors@),
{
    let ghost start = words@;
    for i in 0..vectors.len()
        invariant
            full_vectors(vectors@),
            words@ == start + components(vectors@.take(i as int)),
    {
        let ghost before = words@;
        for d in 0..VS_DIM
            invariant
                0 <= i < vectors@.len(),
                full_vectors(vectors@),
                words@ == before + vectors@[i as int]@.take(d as int),
        {
            assert(vectors@[i as int]@.len() == 128);
            assert(vectors@[i as int]@.take(d as int).push(vectors@[i as int]@[d as int])
                =~= vectors@[i as int]@.take(d + 1));
            words.push(vectors[i][d]);
        }
        assert(words@ =~= start + components(vectors@.take(i + 1))) by {
            let next = components(vectors@.take(i + 1));
            assert(vectors@[i as int]@.len() == 128);
            assert forall|k: int| 0 <= k < next.len() implies words@[start.len() + k]
                == next[k] by {
                if k < 128 * i {
                    assert(0 <= k / 128 < i);
                } else {
                    assert(k / 128 == i && k % 128 == k - 128 * i);
                }
            }
        }
    }
    assert(vectors@.take(vectors@.len() as int) =~= vectors@);
}

/// The bytes of a database, or of a batch of queries, whose components are given as
/// bit patterns.
pub fn encode_vectors(vectors: &Vec<Vec<u32>>) -> (r: Vec<u8>)
    requires
        full_vectors(vectors@),
        vectors@.len() <= u32::MAX,
    ensures
        r@ == words_bytes(vector_file(vectors@)),
{
    let mut words: Vec<u32> = Vec::new();
    words.push(vectors.len() as u32);
    words.push(VS_DIM as u32);
    append_vectors(&mut words, vectors);
    assert(words@ =~= vector_file(vectors@));
    encode_words(&words)
}

/// The bytes of a single query.
pub fn encode_query(query: &Vec<u32>) -> (r: Vec<u8>)
    requires
        query@.len() == 128,
    ensures
        r@ == words_bytes(seq![128u32] + query@),
{
    let mut words: Vec<u32> = Vec::new();
    words.push(VS_DIM as u32);
    for i in 0..VS_DIM
        invariant
            query@.len() == 128,
            words@ == seq![128u32] + query@.take(i as int),
    {
        words.push(query[i]);
    }
    assert(query@.take(128) =~= query@);
    encode_words(&words)
}

/// The words of one list of matches.
pub open spec fn list_words<S: Scalar>(list: Seq<TopKEntry<S>>) -> Seq<u32> {
    Seq::new(
        20,
        |i: int|
            if i % 2 == 0 {
                list[i / 2].id
            } else {
                S::encoded(list[i / 2].score)
            },
    )
}

/// Appends the words of a list of matches.
pub fn append_list<S: Scalar>(words: &mut Vec<u32>, list: &Vec<TopKEntry<S>>)
    requires
        list@.len() == VS_K,
    ensures
        final(words)@ == old(words)@ + list_words(list@),
{
    let ghost before = words@;
    for i in 0..VS_K
        invariant
            list@.len() == VS_K,
            words@ == before + list_words(list@).take(2 * i),
    {
        words.push(list[i].id);
        words.push(list[i].score.to_bits());
        assert((2 * i) % 2 == 0 && (2 * i) / 2 == i as int && (2 * i + 1) % 2 == 1 && (2 * i + 1) / 2
            == i as int);
        assert(words@ =~= before + list_words(list@).take(2 * (i + 1)));
    }
    assert(list_words(list@).take(20) =~= list_words(list@));
}

/// The number of pairs that a results file holds beyond its first `start` bytes, of
/// `k` that it announces and `limit` that are wanted.
pub open spec fn readable_pairs(len: int, start: int, k: int, limit: int) -> int {
    let wanted = if k < limit {
        k
    } else {
        limit
    };
    let there = if len < start {
        0
    } else {
        (len - start) / 8
    };
    if there < wanted {
        there
    } else {
        wanted
    }
}

/// The `i`-th pair from `start` on.
pub open spec fn pair_at(data: Seq<u8>, start: int, i: int) -> (u32, u32) {
    (word_at(data, start + 8 * i), word_at(data, start + 8 * i + 4))
}

fn read_pairs(data: &Vec<u8>, start: usize, k: usize, limit: usize) -> (r: Vec<(u32, u32)>)
    requires
        start <= data@.len(),
    ensures
        r@.len() == readable_pairs(data@.len() as int, start as int, k as int, limit as int),
        forall|i: int| 0 <= i < r@.len() ==> #[trigger] r@[i] == pair_at(data@, start as int, i),
{
    let size: usize = data.len();
    let mut r: Vec<(u32, u32)> = Vec::new();
    let wanted: usize = if k < limit {
        k
    } else {
        limit
    };
    let mut i: usize = 0;
    while i < wanted
        invariant
            size == data@.len(),
            wanted <= limit,
            wanted == if k < limit {
                k
            } else {
                limit
            },
            i <= wanted,
            r@.len() == i,
            start + 8 * i <= size,
            forall|j: int| 0 <= j < i ==> #[trigger] r@[j] == pair_at(data@, start as int, j),
        decreases wanted - i,
    {
        let off: usize = start + i * 8;
        if size - off < 8 {
            return r;
        }
        r.push((read_word(data.as_slice(), off), read_word(data.as_slice(), off + 4)));
        i += 1;
    }
    r
}

/// The matches in a results file: the number of matches it announces, and at most
/// `VS_K` pairs of a vector's number and the bits of its score. A file that breaks
/// off gives the pairs that it holds.
pub fn decode_results(data: &Vec<u8>) -> (r: (usize, Vec<(u32, u32)>))
    requires
        data@.len() >= 4,
    ensures
        r.0 == word_at(data@, 0),
        r.1@.len() == readable_pairs(data@.len() as int, 4, r.0 as int, VS_K as int),
        forall|i: int| 0 <= i < r.1@.len() ==> #[trigger] r.1@[i] == pair_at(data@, 4, i),
{
    let k: usize = read_word(data.as_slice(), 0) as usize;
    (k, read_pairs(data, 4, k, VS_K))
}

/// Where the matches of query `q` start in a batch results file of `k` matches each.
pub open spec fn batch_start(k: int, q: int) -> int {
    8 + q * k * 8
}

/// The matches in a batch results file: the number of queries and of matches for
/// each that it announces, and for at most `queries` of them the first `per_query`
/// pairs.
pub fn decode_batch_results(data: &Vec<u8>, queries: usize, per_query: usize) -> (r: (
    usize,
    usize,
    Vec<Vec<(u32, u32)>>,
))
    requires
        data@.len() >= 8,
    ensures
        r.0 == word_at(data@, 0),
        r.1 == word_at(data@, 4),
        r.2@.len() == if r.0 < queries {
            r.0
        } else {
            queries
        },
        forall|q: int|
            0 <= q < r.2@.len() ==> (#[trigger] r.2@[q])@.len() == readable_pairs(
                data@.len() as int,
                batch_start(r.1 as int, q),
                r.1 as int,
                per_query as int,
            ),
        forall|q: int, i: int|
            0 <= q < r.2@.len() && 0 <= i < r.2@[q]@.len() ==> #[trigger] r.2@[q]@[i] == pair_at(
                data@,
                batch_start(r.1 as int, q),
                i,
            ),
{
    let nq: usize = read_word(data.as_slice(), 0) as usize;
    let k: usize = read_word(data.as_slice(), 4) as usize;
    let wanted: usize = if nq < queries {
        nq
    } else {
        queries
    };
    let size: usize = data.len();
    let mut lists: Vec<Vec<(u32, u32)>> = Vec::new();
    for q in 0..wanted
        invariant
            size == data@.len(),
            wanted <= queries,
            k <= 0xFFFF_FFFF,
            lists@.len() == q,
            forall|p: int|
                0 <= p < q ==> (#[trigger] lists@[p])@.len() == readable_pairs(
                    data@.len() as int,
                    batch_start(k as int, p),
                    k as int,
                    per_query as int,
                ),
            forall|p: int, i: int|
                0 <= p < q && 0 <= i < lists@[p]@.len() ==> #[trigger] lists@[p]@[i] == pair_at(
                    data@,
                    batch_start(k as int, p),
                    i,
                ),
    {
        assert(0 <= q * k <= 0xFFFF_FFFF_FFFF_FFFF * 0xFFFF_FFFF) by (nonlinear_arith)
            requires
                0 <= q <= 0xFFFF_FFFF_FFFF_FFFF,
                0 <= k <= 0xFFFF_FFFF,
        ;
        let base: u128 = 8 + q as u128 * k as u128 * 8;
        if base <= size as u128 {
            lists.push(read_pairs(data, base as usize, k, per_query));
        } else {
            lists.push(Vec::new());
        }
    }
    (nq, k, lists)
}

/// The bits of the float 0.99.
pub const SCORE_FLOOR_BITS: u32 = 0x3F7D_70A4;

/// The bits of positive infinity.
pub const INFINITY_BITS: u32 = 0x7F80_0000;

/// A float above 0.99. Positive floats are ordered as their bits are, and the
/// patterns above infinity are not numbers.
pub open spec fn above_score_floor(bits: u32) -> bool {
    SCORE_FLOOR_BITS < bits <= INFINITY_BITS
}

/// Whether a search for the vector with number `expected` went well: the kernel
/// reports success, and that vector is the first match, with a score near one.
pub fn search_passed(status: u32, results: &Vec<(u32, u32)>, expected: u32) -> (r: bool)
    ensures
        r == (status == 1 && results@.len() > 0 && results@[0].0 == expected && above_score_floor(
            results@[0].1,
        )),
{
    if status != 1 || results.len() == 0 {
        return false;
    }
    results[0].0 == expected && results[0].1 > SCORE_FLOOR_BITS && results[0].1 <= INFINITY_BITS
}

/// Whether a batch search went well: the kernel reports success and answered every
/// query.
pub fn batch_passed(status: u32, answered: usize, queries: usize) -> (r: bool)
    ensures
        r == (status == 1 && answered == queries),
{
    status == 1 && answered == queries
}

/// A database file gives its count, its dimensions and every component back.
pub proof fn vector_file_is_read_back(vectors: Seq<Vec<u32>>, v: int, d: int)
    requires
        full_vectors(vectors),
        vectors.len() <= u32::MAX,
        0 <= v < vectors.len(),
        0 <= d < 128,
    ensures
        word_at(words_bytes(vector_file(vectors)), 0) == vectors.len(),
        word_at(words_bytes(vector_file(vectors)), 4) == 128,
        word_at(words_bytes(vector_file(vectors)), 8 + 512 * v + 4 * d) == vectors[v]@[d],
{
    let words = vector_file(vectors);
    words_are_read_back(words, 0);
    words_are_read_back(words, 1);
    let i = 2 + 128 * v + d;
    assert((128 * v + d) / 128 == v && (128 * v + d) % 128 == d);
    words_are_read_back(words, i);
}

/// A results file that holds a list of matches gives every match back.
pub proof fn results_are_read_back<S: Scalar>(list: Seq<TopKEntry<S>>, i: int)
    requires
        list.len() == VS_K,
        0 <= i < VS_K,
    ensures
        ({
            let data = words_bytes(seq![10u32] + list_words(list));
            &&& word_at(data, 0) == VS_K
            &&& readable_pairs(data.len() as int, 4, 10, VS_K as int) == VS_K
            &&& pair_at(data, 4, i) == (list[i].id, S::encoded(list[i].score))
        }),
{
    let words = seq![10u32] + list_words(list);
    words_are_read_back(words, 0);
    words_are_read_back(words, 1 + 2 * i);
    words_are_read_back(words, 2 + 2 * i);
    assert((2 * i) % 2 == 0 && (2 * i) / 2 == i && (2 * i + 1) % 2 == 1 && (2 * i + 1) / 2 == i);
}

} // verus!
