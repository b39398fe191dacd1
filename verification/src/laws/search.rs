//! Laws of the search.

use vstd::prelude::*;

use crate::bytes::{word_at, words_are_read_back, words_bytes};
use crate::exact::{
    exact_field, exact_ring, exact_roots, lemma_commute, lemma_one, lemma_over_times,
    lemma_quotient_is, lemma_regroup_product, lemma_zero, positive_factors_keep_signs,
    roots_take_squares_out, squares_undo_roots,
};
use crate::laws::sums::{dot_is_symmetric, dot_scales, dot_with_zeros};
use crate::scalar::{above, one, zero, Scalar};
use crate::search::files::{
    batch_start, full_vectors, list_words, pair_at, vector_file, vector_file_is_read_back,
};
use crate::search::pipeline::{
    action_of, batch_results, cosine, low_word, matches_for, next_state, scores, single_results,
    Action, Call, Kind, SearchState,
};
use crate::search::topk::best;
use crate::tensor::{dot, elements};
use crate::warp::poll::{OpenMode, Outcome};

verus! {

/// In exact arithmetic, two vectors are as alike as they are with the sides exchanged.
pub proof fn likeness_is_symmetric<S: Scalar>(a: Seq<S>, b: Seq<S>, dim: nat)
    requires
        exact_ring::<S>(),
    ensures
        cosine(a, b, dim) == cosine(b, a, dim),
{
    dot_is_symmetric(a, b, dim);
    lemma_commute(S::root(dot(a, a, dim)), S::root(dot(b, b, dim)));
}

/// In exact arithmetic, the likeness of two vectors that have a length, multiplied by both
/// lengths, is the sum of their products.
pub proof fn likeness_times_lengths<S: Scalar>(a: Seq<S>, b: Seq<S>, dim: nat)
    requires
        exact_field::<S>(),
        exact_roots::<S>(),
        above(dot(a, a, dim), zero::<S>()),
        above(dot(b, b, dim), zero::<S>()),
    ensures
        S::product(
            cosine(a, b, dim),
            S::product(S::root(dot(a, a, dim)), S::root(dot(b, b, dim))),
        ) == dot(a, b, dim),
{
    lemma_lengths(a, b, dim);
    lemma_over_times(
        dot(a, b, dim),
        S::product(S::root(dot(a, a, dim)), S::root(dot(b, b, dim))),
    );
}

proof fn lemma_lengths<S: Scalar>(a: Seq<S>, b: Seq<S>, dim: nat)
    requires
        exact_roots::<S>(),
        above(dot(a, a, dim), zero::<S>()),
        above(dot(b, b, dim), zero::<S>()),
    ensures
        above(
            S::product(S::root(dot(a, a, dim)), S::root(dot(b, b, dim))),
            zero::<S>(),
        ),
{
    reveal(squares_undo_roots);
    reveal(positive_factors_keep_signs);
    assert(above(S::root(dot(a, a, dim)), zero::<S>()));
    assert(above(S::root(dot(b, b, dim)), zero::<S>()));
}

/// In exact arithmetic, a vector that has a length is as alike to itself as can be.
pub proof fn likeness_to_itself_is_one<S: Scalar>(a: Seq<S>, dim: nat)
    requires
        exact_field::<S>(),
        exact_roots::<S>(),
        above(dot(a, a, dim), zero::<S>()),
    ensures
        cosine(a, a, dim) == one::<S>(),
{
    let d = dot(a, a, dim);
    lemma_lengths(a, a, dim);
    assert(S::product(S::root(d), S::root(d)) == d) by {
        reveal(squares_undo_roots);
    }
    lemma_one(d);
    lemma_quotient_is(one(), d, d);
}

/// In exact arithmetic, the length of a vector does not matter for its likeness to another: a
/// factor above zero changes nothing.
pub proof fn likeness_does_not_depend_on_length<S: Scalar>(
    a: Seq<S>,
    b: Seq<S>,
    scaled: Seq<S>,
    f: S,
    dim: nat,
)
    requires
        exact_field::<S>(),
        exact_roots::<S>(),
        above(f, zero::<S>()),
        forall|j: int| 0 <= j < dim ==> #[trigger] scaled[j] == S::product(f, b[j]),
    ensures
        cosine(a, scaled, dim) == cosine(a, b, dim),
        cosine(scaled, a, dim) == cosine(b, a, dim),
{
    let bb = dot(b, b, dim);
    let (ra, rb) = (S::root(dot(a, a, dim)), S::root(bb));
    let denom = S::product(ra, rb);
    dot_scales(b, scaled, scaled, f, dim);
    dot_is_symmetric(b, scaled, dim);
    dot_scales(b, b, scaled, f, dim);
    lemma_regroup_product(f, f, bb);
    assert(dot(scaled, scaled, dim) == S::product(S::product(f, f), bb));
    assert(S::root(dot(scaled, scaled, dim)) == S::product(f, rb)) by {
        reveal(roots_take_squares_out);
    }
    // Both lengths together grow by the factor.
    lemma_commute(ra, S::product(f, rb));
    lemma_regroup_product(f, rb, ra);
    lemma_commute(rb, ra);
    let grown = S::product(ra, S::product(f, rb));
    assert(grown == S::product(f, denom));
    assert(above(grown, zero::<S>()) <==> above(denom, zero::<S>())) by {
        reveal(positive_factors_keep_signs);
    }
    // So does the sum of products.
    let d = dot(a, b, dim);
    dot_scales(b, a, scaled, f, dim);
    dot_is_symmetric(a, b, dim);
    dot_is_symmetric(a, scaled, dim);
    assert(dot(a, scaled, dim) == S::product(f, d));
    if above(denom, zero::<S>()) {
        let c = S::quotient(d, denom);
        lemma_over_times(d, denom);
        lemma_commute(c, grown);
        lemma_regroup_product(f, denom, c);
        lemma_commute(denom, c);
        lemma_quotient_is(c, S::product(f, d), grown);
    }
    likeness_is_symmetric(a, scaled, dim);
    likeness_is_symmetric(a, b, dim);
}

/// In exact arithmetic, a vector without length is not alike to any other.
pub proof fn nothing_is_like_a_zero_vector<S: Scalar>(a: Seq<S>, b: Seq<S>, dim: nat)
    requires
        exact_field::<S>(),
        exact_roots::<S>(),
        forall|j: int| 0 <= j < dim ==> #[trigger] b[j] == zero::<S>(),
    ensures
        cosine(a, b, dim) == zero::<S>(),
{
    dot_with_zeros(b, b, dim);
    let ra = S::root(dot(a, a, dim));
    assert(S::root(dot(b, b, dim)) == zero::<S>()) by {
        reveal(squares_undo_roots);
    }
    lemma_zero(ra);
    lemma_commute(ra, zero::<S>());
}

/// In exact arithmetic, the score of vector `i`, multiplied by the lengths of the query and of
/// the vector, is the sum of the products of their 128 components.
pub proof fn scores_are_cosines<S: Scalar>(
    data: Seq<u8>,
    vecs: int,
    n: nat,
    query: Seq<S>,
    i: int,
)
    requires
        exact_field::<S>(),
        exact_roots::<S>(),
        0 <= i < n,
        above(dot(query, query, 128), zero::<S>()),
        above(
            dot(elements::<S>(data, vecs + 512 * i, 128), elements(data, vecs + 512 * i, 128), 128),
            zero::<S>(),
        ),
    ensures
        ({
            let v = elements::<S>(data, vecs + 512 * i, 128);
            S::product(
                scores(data, vecs, n, query)[i],
                S::product(S::root(dot(query, query, 128)), S::root(dot(v, v, 128))),
            ) == dot(query, v, 128)
        }),
{
    likeness_times_lengths(query, elements::<S>(data, vecs + 512 * i, 128), 128);
}

proof fn lemma_same_elements<S: Scalar>(a: Seq<u8>, b: Seq<u8>, at: int, to: int)
    requires
        forall|j: int| 0 <= j < 512 ==> #[trigger] a[at + j] == b[to + j],
    ensures
        elements::<S>(a, at, 128) == elements::<S>(b, to, 128),
{
    assert forall|k: int| 0 <= k < 128 implies elements::<S>(a, at, 128)[k] == elements::<S>(
        b,
        to,
        128,
    )[k] by {
        assert(a[at + 4 * k] == b[to + 4 * k]);
        assert(a[at + (4 * k + 1)] == b[to + (4 * k + 1)]);
        assert(a[at + (4 * k + 2)] == b[to + (4 * k + 2)]);
        assert(a[at + (4 * k + 3)] == b[to + (4 * k + 3)]);
    }
    assert(elements::<S>(a, at, 128) =~= elements::<S>(b, to, 128));
}

/// The score of a vector depends on the query and on the vector's own bytes only: not on
/// other vectors, and not on where the vector stands.
pub proof fn scores_depend_on_their_vector<S: Scalar>(
    a: Seq<u8>,
    b: Seq<u8>,
    vecs: int,
    others: int,
    n: nat,
    m: nat,
    query: Seq<S>,
    i: int,
    j: int,
)
    requires
        0 <= i < n,
        0 <= j < m,
        forall|k: int|
            0 <= k < 512 ==> #[trigger] a[vecs + 512 * i + k] == b[others + 512 * j + k],
    ensures
        scores(a, vecs, n, query)[i] == scores(b, others, m, query)[j],
{
    lemma_same_elements::<S>(a, b, vecs + 512 * i, others + 512 * j);
}

/// Bytes stand in a buffer from a place on.
pub open spec fn holds(data: Seq<u8>, at: int, bytes: Seq<u8>) -> bool {
    &&& 0 <= at
    &&& at + bytes.len() <= data.len()
    &&& data.subrange(at, at + bytes.len()) == bytes
}

/// The components of a vector as elements.
pub open spec fn vector_of<S: Scalar>(components: Seq<u32>) -> Seq<S> {
    Seq::new(128, |d: int| S::decoded(components[d]))
}

/// How alike a query is to each vector.
pub open spec fn likenesses<S: Scalar>(vectors: Seq<Vec<u32>>, query: Seq<u32>) -> Seq<S> {
    Seq::new(
        vectors.len(),
        |v: int| cosine(vector_of::<S>(query), vector_of::<S>(vectors[v]@), 128),
    )
}

proof fn lemma_held_word(data: Seq<u8>, at: int, bytes: Seq<u8>, k: int)
    requires
        holds(data, at, bytes),
        0 <= k,
        k + 4 <= bytes.len(),
    ensures
        word_at(data, at + k) == word_at(bytes, k),
{
    let part = data.subrange(at, at + bytes.len());
    assert(part[k] == data[at + k]);
    assert(part[k + 1] == data[at + k + 1]);
    assert(part[k + 2] == data[at + k + 2]);
    assert(part[k + 3] == data[at + k + 3]);
}

/// A vector of a database file, or of a file of queries, is read from its place.
pub proof fn stored_vectors_are_those_of_the_file<S: Scalar>(
    data: Seq<u8>,
    at: int,
    vectors: Seq<Vec<u32>>,
    v: int,
)
    requires
        full_vectors(vectors),
        vectors.len() <= u32::MAX,
        holds(data, at, words_bytes(vector_file(vectors))),
        0 <= v < vectors.len(),
    ensures
        elements::<S>(data, at + 8 + 512 * v, 128) == vector_of::<S>(vectors[v]@),
{
    let bytes = words_bytes(vector_file(vectors));
    assert forall|d: int| 0 <= d < 128 implies #[trigger] elements::<S>(
        data,
        at + 8 + 512 * v,
        128,
    )[d] == vector_of::<S>(vectors[v]@)[d] by {
        vector_file_is_read_back(vectors, v, d);
        lemma_held_word(data, at, bytes, 8 + 512 * v + 4 * d);
    }
    assert(elements::<S>(data, at + 8 + 512 * v, 128) =~= vector_of::<S>(vectors[v]@));
}

proof fn lemma_query_elements<S: Scalar>(data: Seq<u8>, at: int, query: Seq<u32>)
    requires
        query.len() == 128,
        holds(data, at, words_bytes(seq![128u32] + query)),
    ensures
        elements::<S>(data, at + 4, 128) == vector_of::<S>(query),
{
    let words = seq![128u32] + query;
    assert forall|d: int| 0 <= d < 128 implies #[trigger] elements::<S>(data, at + 4, 128)[d]
        == vector_of::<S>(query)[d] by {
        words_are_read_back(words, 1 + d);
        lemma_held_word(data, at, words_bytes(words), 4 + 4 * d);
        assert(words[1 + d] == query[d]);
    }
    assert(elements::<S>(data, at + 4, 128) =~= vector_of::<S>(query));
}

proof fn lemma_scores<S: Scalar>(
    data: Seq<u8>,
    at: int,
    vectors: Seq<Vec<u32>>,
    query: Seq<u32>,
)
    requires
        full_vectors(vectors),
        vectors.len() <= u32::MAX,
        holds(data, at, words_bytes(vector_file(vectors))),
    ensures
        scores(data, at + 8, vectors.len(), vector_of::<S>(query)) == likenesses::<S>(
            vectors,
            query,
        ),
{
    let got = scores(data, at + 8, vectors.len(), vector_of::<S>(query));
    assert forall|v: int| 0 <= v < vectors.len() implies #[trigger] got[v] == likenesses::<S>(
        vectors,
        query,
    )[v] by {
        stored_vectors_are_those_of_the_file::<S>(data, at, vectors, v);
    }
    assert(got =~= likenesses::<S>(vectors, query));
}

/// A search whose buffer holds a database file and a query file finds the best of the
/// likenesses between the query and the vectors.
pub proof fn searches_rank_the_files<S: Scalar>(
    at: SearchState,
    data: Seq<u8>,
    vectors: Seq<Vec<u32>>,
    query: Seq<u32>,
)
    requires
        full_vectors(vectors),
        query.len() == 128,
        at.db_count == vectors.len(),
        at.db_offset <= u32::MAX,
        at.query_offset <= u32::MAX,
        holds(data, at.db_offset as int, words_bytes(vector_file(vectors))),
        holds(data, at.query_offset as int, words_bytes(seq![128u32] + query)),
    ensures
        single_results::<S>(at, data) == seq![10u32] + list_words(
            best(likenesses::<S>(vectors, query)),
        ),
{
    lemma_query_elements::<S>(data, at.query_offset as int, query);
    lemma_scores::<S>(data, at.db_offset as int, vectors, query);
}

/// A batch whose buffer holds a database file and a file of queries finds for each query the
/// best of its likenesses, and lists them query by query.
pub proof fn batches_rank_the_files<S: Scalar>(
    at: SearchState,
    data: Seq<u8>,
    vectors: Seq<Vec<u32>>,
    queries: Seq<Vec<u32>>,
    q: int,
    k: int,
)
    requires
        full_vectors(vectors),
        full_vectors(queries),
        at.db_count == vectors.len(),
        at.num_queries == queries.len(),
        at.db_offset <= u32::MAX,
        at.query_offset <= u32::MAX,
        holds(data, at.db_offset as int, words_bytes(vector_file(vectors))),
        holds(data, at.query_offset as int, words_bytes(vector_file(queries))),
        0 <= q < queries.len(),
        0 <= k < 20,
    ensures
        batch_results::<S>(at, data).len() == 2 + 20 * queries.len(),
        batch_results::<S>(at, data)[0] == queries.len(),
        batch_results::<S>(at, data)[1] == 10,
        batch_results::<S>(at, data)[2 + 20 * q + k] == list_words(
            best(likenesses::<S>(vectors, queries[q]@)),
        )[k],
{
    stored_vectors_are_those_of_the_file::<S>(data, at.query_offset as int, queries, q);
    lemma_scores::<S>(data, at.db_offset as int, vectors, queries[q]@);
    let i = 20 * q + k;
    assert(i / 20 == q && i % 20 == k);
    assert(matches_for::<S>(
        data,
        low_word(at.db_offset) + 8,
        at.db_count as nat,
        low_word(at.query_offset) + 8 + 512 * q,
    ) == best(likenesses::<S>(vectors, queries[q]@)));
}

/// A search opens its database for reading, then its query or its queries, and then creates the
/// file for its results. It opens nothing else.
pub proof fn searches_use_their_own_files(kind: Kind, at: SearchState)
    ensures
        match action_of(kind, at) {
            Action::Submit(Call::Open { file, mode }) => {
                ||| at.state == 0 && file.name_text() == "vecdb.bin"@ && mode == OpenMode::Read
                ||| at.state == 6 && mode == OpenMode::Read && match kind {
                    Kind::Single => file.name_text() == "query.bin"@,
                    Kind::Batch => file.name_text() == "queries.bin"@,
                }
                ||| at.state == 13 && mode == OpenMode::WriteCreate && match kind {
                    Kind::Single => file.name_text() == "results.bin"@,
                    Kind::Batch => file.name_text() == "batch_results.bin"@,
                }
            },
            Action::Submit(Call::BulkRead { fd, offset, .. }) => {
                &&& fd == at.fd
                &&& at.state == 2 && offset == at.db_offset || at.state == 8 && offset
                    == at.query_offset
            },
            Action::Submit(Call::BulkWrite { fd, offset, length }) => {
                &&& at.state == 15
                &&& fd == at.fd
                &&& offset == at.result_offset
                &&& kind == Kind::Single ==> length == 4 + 10 * 8
                &&& kind == Kind::Batch ==> length == at.result_bytes
            },
            Action::Submit(Call::Close { fd }) => fd == at.fd && (at.state == 4 || at.state == 10
                || at.state == 17),
            Action::Compute => at.state == 12,
            Action::Wait => at.state < 19,
            Action::Stop(ok) => at.state >= 19 && ok == (at.state == 19),
        },
        (at.state == 0 || at.state == 6 || at.state == 13) ==> (action_of(kind, at) matches
            Action::Submit(Call::Open { .. })),
        (at.state == 2 || at.state == 8) ==> (action_of(kind, at) matches Action::Submit(
            Call::BulkRead { .. },
        )),
        at.state == 15 ==> (action_of(kind, at) matches Action::Submit(Call::BulkWrite { .. })),
        (at.state == 4 || at.state == 10 || at.state == 17) ==> (action_of(kind, at) matches
            Action::Submit(Call::Close { .. })),
        at.state == 12 ==> action_of(kind, at) == Action::Compute,
{
}

/// The numbers of vectors and queries are those that the files say, and the results are
/// written to the space that was asked for.
pub proof fn searches_take_their_numbers_from_the_files(
    kind: Kind,
    at: SearchState,
    value: u64,
    region: u64,
    data: Seq<u8>,
)
    ensures
        at.state == 3 ==> next_state(kind, at, Outcome::Replied(value), region, data).db_count
            == word_at(data, at.db_offset as int),
        at.state == 9 && kind == Kind::Batch ==> next_state(
            kind,
            at,
            Outcome::Replied(value),
            region,
            data,
        ).num_queries == word_at(data, at.query_offset as int),
        at.state == 12 ==> next_state(
            kind,
            at,
            Outcome::Replied(value),
            region,
            data,
        ).result_offset == region,
        at.state != 3 ==> next_state(kind, at, Outcome::Replied(value), region, data).db_count
            == at.db_count,
        at.state != 1 ==> next_state(kind, at, Outcome::Replied(value), region, data).db_offset
            == at.db_offset,
        at.state != 7 ==> next_state(kind, at, Outcome::Replied(value), region, data).query_offset
            == at.query_offset,
{
}

/// The results of a batch give every match of every query back: the `i`-th pair of query `q` is
/// the number and the score of the `i`-th best vector for that query.
pub proof fn batch_results_are_read_back<S: Scalar>(
    at: SearchState,
    data: Seq<u8>,
    vectors: Seq<Vec<u32>>,
    queries: Seq<Vec<u32>>,
    q: int,
    i: int,
)
    requires
        full_vectors(vectors),
        full_vectors(queries),
        at.db_count == vectors.len(),
        at.num_queries == queries.len(),
        at.db_offset <= u32::MAX,
        at.query_offset <= u32::MAX,
        holds(data, at.db_offset as int, words_bytes(vector_file(vectors))),
        holds(data, at.query_offset as int, words_bytes(vector_file(queries))),
        0 <= q < queries.len(),
        0 <= i < 10,
    ensures
        ({
            let file = words_bytes(batch_results::<S>(at, data));
            let found = best(likenesses::<S>(vectors, queries[q]@));
            &&& word_at(file, 0) == queries.len()
            &&& word_at(file, 4) == 10
            &&& pair_at(file, batch_start(10, q), i) == (
                found[i].id,
                S::encoded(found[i].score),
            )
        }),
{
    let words = batch_results::<S>(at, data);
    batches_rank_the_files::<S>(at, data, vectors, queries, q, 2 * i);
    batches_rank_the_files::<S>(at, data, vectors, queries, q, 2 * i + 1);
    words_are_read_back(words, 0);
    words_are_read_back(words, 1);
    words_are_read_back(words, 2 + 20 * q + 2 * i);
    words_are_read_back(words, 2 + 20 * q + (2 * i + 1));
    assert((2 * i) % 2 == 0 && (2 * i) / 2 == i && (2 * i + 1) % 2 == 1 && (2 * i + 1) / 2 == i);
    assert(batch_start(10, q) + 8 * i == 4 * (2 + 20 * q + 2 * i));
}

} // verus!
