//! The search as a task of a warp.
//!
//! A search reads the database and the queries into the sideband buffer, ranks the
//! vectors, and writes the matches to a file. Every state does one thing: hand one
//! call to the host, wait for its answer, or compute.

use vstd::prelude::*;

use crate::bytes::{
    patched, read_word, word_at, words_bytes, write_words,
};
use crate::scalar::{above, zero, Constant, Scalar};
use crate::search::files::{append_list, list_words, VS_DIM};
use crate::search::topk::{
    best, blank_list, lane_list, lane_lists, lane_share, merge_lanes, merged, new_list, offer,
    TopKEntry, VS_K, WARP_SIZE,
};
use crate::tensor::{dot, dot_product, elements, read_elements};
use crate::warp::poll::{leave_word, left_word, OpenMode, Outcome, WarpPoll};

verus! {

/// How alike two vectors are: the cosine of the angle between them, or zero if one
/// of them has no length.
pub open spec fn cosine<S: Scalar>(query: Seq<S>, v: Seq<S>, dim: nat) -> S {
    let denom = S::product(S::root(dot(query, query, dim)), S::root(dot(v, v, dim)));
    if above(denom, zero()) {
        S::quotient(dot(query, v, dim), denom)
    } else {
        zero()
    }
}

/// The vector with number `i` of the database whose vectors start at `vecs`.
pub open spec fn stored_vector<S: Scalar>(data: Seq<u8>, vecs: int, i: int) -> Seq<S> {
    elements(data, vecs + 512 * i, 128)
}

/// The scores of all `n` vectors for a query.
pub open spec fn scores<S: Scalar>(data: Seq<u8>, vecs: int, n: nat, query: Seq<S>) -> Seq<S> {
    Seq::new(n, |i: int| cosine(query, stored_vector(data, vecs, i), 128))
}

/// The matches for the query at `query_at`.
pub open spec fn matches_for<S: Scalar>(data: Seq<u8>, vecs: int, n: nat, query_at: int) -> Seq<
    TopKEntry<S>,
> {
    best(scores(data, vecs, n, elements::<S>(data, query_at, 128)))
}

/// Finds the best matches for the query at `query_at` among the `n` vectors at
/// `vecs`, lane by lane.
pub fn find_matches<S: Scalar>(data: &Vec<u8>, vecs: usize, n: usize, query_at: usize) -> (r: Vec<
    TopKEntry<S>,
>)
    requires
        vecs + 512 * n <= data@.len(),
        query_at + 512 <= data@.len(),
        n <= u32::MAX,
    ensures
        r@ == matches_for::<S>(data@, vecs as int, n as nat, query_at as int),
        r@.len() == VS_K,
{
    let query: Vec<S> = read_elements(data, query_at, VS_DIM);
    let q_norm = dot_product(&query, &query, VS_DIM).sqrt();
    let ghost all = scores(data@, vecs as int, n as nat, query@);
    let size: usize = data.len();
    let mut lists: Vec<Vec<TopKEntry<S>>> = Vec::new();
    for lane in 0..WARP_SIZE
        invariant
            size == data@.len(),
            vecs + 512 * n <= size,
            n <= u32::MAX,
            query@.len() == 128,
            q_norm == S::root(dot(query@, query@, 128)),
            all == scores(data@, vecs as int, n as nat, query@),
            lists@.len() == lane,
            forall|s: int|
                0 <= s < lane ==> (#[trigger] lists@[s])@ == lane_lists(all)[s] && lists@[s]@.len()
                    == VS_K,
    {
        let mut list: Vec<TopKEntry<S>> = new_list();
        let mut vec_idx: usize = lane;
        let ghost mut m: nat = 0;
        while vec_idx < n
            invariant
                size == data@.len(),
                vecs + 512 * n <= size,
                n <= u32::MAX,
                query@.len() == 128,
                q_norm == S::root(dot(query@, query@, 128)),
                all == scores(data@, vecs as int, n as nat, query@),
                0 <= lane < WARP_SIZE,
                vec_idx == lane + 32 * m,
                vec_idx < n + 32,
                m == 0 || vec_idx - 32 < n,
                list@.len() == VS_K,
                list@ == lane_list(all, lane as int, m),
            decreases n + 32 - vec_idx,
        {
            let v: Vec<S> = read_elements(data, vecs + 512 * vec_idx, VS_DIM);
            let dot = dot_product(&query, &v, VS_DIM);
            let v_norm = dot_product(&v, &v, VS_DIM).sqrt();
            let denom = q_norm.times(&v_norm);
            let score = if denom.exceeds(&S::constant(Constant::Zero)) {
                dot.over(&denom)
            } else {
                S::constant(Constant::Zero)
            };
            assert(v@ == stored_vector::<S>(data@, vecs as int, vec_idx as int));
            assert(score == all[vec_idx as int]);
            proof {
                m = m + 1;
            }
            offer(&mut list, TopKEntry { id: vec_idx as u32, score });
            vec_idx += 32;
        }
        assert(m == lane_share(n as int, lane as int));
        lists.push(list);
    }
    assert(lists@.map_values(|l: Vec<TopKEntry<S>>| l@) =~= lane_lists(all));
    let r = merge_lanes(&lists);
    assert(elements::<S>(data@, query_at as int, 128) =~= query@);
    proof {
        lemma_merged_len(lane_lists(all), 310);
    }
    r
}

proof fn lemma_merged_len<S: Scalar>(lists: Seq<Seq<TopKEntry<S>>>, t: nat)
    requires
        lists[0].len() == VS_K,
    ensures
        merged(lists, t).len() == VS_K,
    decreases t,
{
    if t > 0 {
        lemma_merged_len(lists, (t - 1) as nat);
        let list = merged(lists, (t - 1) as nat);
        let e = lists[1 + (t - 1) % 31][(t - 1) / 31];
        if above(e.score, list.last().score) {
            let kept = list.drop_last();
            lemma_rest(kept, e, kept.len());
        }
    }
}

proof fn lemma_rest<S: Scalar>(list: Seq<TopKEntry<S>>, e: TopKEntry<S>, j: nat)
    ensures
        crate::search::topk::rest(list, e, j) <= j,
    decreases j,
{
    if j > 0 && above(e.score, list[j - 1].score) {
        lemma_rest(list, e, (j - 1) as nat);
    }
}

/// Whether a search answers one query or a batch of them.
#[derive(Clone, Copy, Debug, PartialEq, Eq, Structural)]
pub enum Kind {
    Single,
    Batch,
}

/// A file that a search uses.
#[derive(Clone, Copy, Debug, PartialEq, Eq, Structural)]
pub enum SearchFile {
    Database,
    Query,
    Queries,
    Results,
    BatchResults,
}

impl SearchFile {
    /// The file's name.
    pub open spec fn name_text(self) -> Seq<char> {
        match self {
            SearchFile::Database => "vecdb.bin"@,
            SearchFile::Query => "query.bin"@,
            SearchFile::Queries => "queries.bin"@,
            SearchFile::Results => "results.bin"@,
            SearchFile::BatchResults => "batch_results.bin"@,
        }
    }

    /// The file's name.
    pub fn name(&self) -> (r: &'static str)
        ensures
            r@ == self.name_text(),
    {
        match self {
            SearchFile::Database => "vecdb.bin",
            SearchFile::Query => "query.bin",
            SearchFile::Queries => "queries.bin",
            SearchFile::Results => "results.bin",
            SearchFile::BatchResults => "batch_results.bin",
        }
    }
}

/// A call to the host.
#[derive(Clone, Copy, Debug, PartialEq, Eq, Structural)]
pub enum Call {
    Open { file: SearchFile, mode: OpenMode },
    BulkRead { fd: u64, offset: u64, length: u64 },
    BulkWrite { fd: u64, offset: u64, length: u64 },
    Close { fd: u64 },
}

/// The states of a search.
pub const SUBMIT_OPEN_DB: u32 = 0;

pub const WAIT_OPEN_DB: u32 = 1;

pub const SUBMIT_READ_DB: u32 = 2;

pub const WAIT_READ_DB: u32 = 3;

pub const SUBMIT_CLOSE_DB: u32 = 4;

pub const WAIT_CLOSE_DB: u32 = 5;

pub const SUBMIT_OPEN_Q: u32 = 6;

pub const WAIT_OPEN_Q: u32 = 7;

pub const SUBMIT_READ_Q: u32 = 8;

pub const WAIT_READ_Q: u32 = 9;

pub const SUBMIT_CLOSE_Q: u32 = 10;

pub const WAIT_CLOSE_Q: u32 = 11;

pub const COMPUTE: u32 = 12;

pub const SUBMIT_OPEN_OUT: u32 = 13;

pub const WAIT_OPEN_OUT: u32 = 14;

pub const SUBMIT_WRITE: u32 = 15;

pub const WAIT_WRITE: u32 = 16;

pub const SUBMIT_CLOSE_OUT: u32 = 17;

pub const WAIT_CLOSE_OUT: u32 = 18;

pub const DONE: u32 = 19;

/// The sideband space for the database.
pub const DB_REGION: u64 = 921600;

/// The sideband space for one query.
pub const QUERY_REGION: u64 = 516;

/// The sideband space for a batch of queries.
pub const BATCH_REGION: u64 = 102400;

/// The bytes of one list of matches in a file.
pub const RESULT_BYTES: u64 = 84;

/// Where a search stands.
#[derive(Clone, Copy, Debug, PartialEq, Eq, Structural)]
pub struct SearchState {
    pub state: u32,
    /// The open file, or zero.
    pub fd: u64,
    /// The number of vectors in the database.
    pub db_count: u32,
    /// The number of queries of a batch.
    pub num_queries: u32,
    /// Where the database, the queries and the results lie in the sideband buffer.
    pub db_offset: u64,
    pub query_offset: u64,
    pub result_offset: u64,
    /// The size of a batch's results.
    pub result_bytes: u64,
}

/// A search before its first poll.
pub open spec fn initial_state() -> SearchState {
    SearchState {
        state: SUBMIT_OPEN_DB,
        fd: 0,
        db_count: 0,
        num_queries: 0,
        db_offset: 0,
        query_offset: 0,
        result_offset: 0,
        result_bytes: 0,
    }
}

/// What a state does.
#[derive(Clone, Copy, Debug, PartialEq, Eq, Structural)]
pub enum Action {
    /// Hand a call to the host.
    Submit(Call),
    /// Wait for its answer.
    Wait,
    /// Rank the vectors.
    Compute,
    /// The search is over.
    Stop(bool),
}

/// What a search does in its state.
pub open spec fn action_of(kind: Kind, at: SearchState) -> Action {
    let query_file = if kind == Kind::Single {
        SearchFile::Query
    } else {
        SearchFile::Queries
    };
    let result_file = if kind == Kind::Single {
        SearchFile::Results
    } else {
        SearchFile::BatchResults
    };
    if at.state == SUBMIT_OPEN_DB {
        Action::Submit(Call::Open { file: SearchFile::Database, mode: OpenMode::Read })
    } else if at.state == SUBMIT_READ_DB {
        Action::Submit(Call::BulkRead { fd: at.fd, offset: at.db_offset, length: DB_REGION })
    } else if at.state == SUBMIT_OPEN_Q {
        Action::Submit(Call::Open { file: query_file, mode: OpenMode::Read })
    } else if at.state == SUBMIT_READ_Q {
        Action::Submit(
            Call::BulkRead {
                fd: at.fd,
                offset: at.query_offset,
                length: if kind == Kind::Single {
                    QUERY_REGION
                } else {
                    BATCH_REGION
                },
            },
        )
    } else if at.state == SUBMIT_OPEN_OUT {
        Action::Submit(Call::Open { file: result_file, mode: OpenMode::WriteCreate })
    } else if at.state == SUBMIT_WRITE {
        Action::Submit(
            Call::BulkWrite {
                fd: at.fd,
                offset: at.result_offset,
                length: if kind == Kind::Single {
                    RESULT_BYTES
                } else {
                    at.result_bytes
                },
            },
        )
    } else if at.state == SUBMIT_CLOSE_DB || at.state == SUBMIT_CLOSE_Q || at.state
        == SUBMIT_CLOSE_OUT {
        Action::Submit(Call::Close { fd: at.fd })
    } else if at.state == COMPUTE {
        Action::Compute
    } else if at.state < DONE {
        Action::Wait
    } else {
        Action::Stop(at.state == DONE)
    }
}

/// Sideband space that a poll asks for.
#[derive(Clone, Copy, Debug, PartialEq, Eq, Structural)]
pub struct Allocation {
    /// Whether all earlier space is given up first.
    pub reset: bool,
    pub bytes: u64,
}

/// The bytes that the results of a batch of `n` queries take.
pub open spec fn batch_bytes(n: u32) -> int {
    8 + n * 80
}

/// The sideband space that a poll with this outcome asks for.
pub open spec fn allocation_of(kind: Kind, at: SearchState, outcome: Outcome) -> Option<
    Allocation,
> {
    if at.state == WAIT_OPEN_DB && outcome is Replied {
        Some(Allocation { reset: true, bytes: DB_REGION })
    } else if at.state == WAIT_OPEN_Q && outcome is Replied {
        Some(
            Allocation {
                reset: false,
                bytes: if kind == Kind::Single {
                    QUERY_REGION
                } else {
                    BATCH_REGION
                },
            },
        )
    } else if at.state == COMPUTE {
        Some(
            Allocation {
                reset: false,
                bytes: if kind == Kind::Single {
                    RESULT_BYTES
                } else {
                    batch_bytes(at.num_queries) as u64
                },
            },
        )
    } else {
        None
    }
}

/// The state that a poll leads to, given the space that it asked for and the
/// sideband buffer.
pub open spec fn next_state(
    kind: Kind,
    at: SearchState,
    outcome: Outcome,
    region: u64,
    data: Seq<u8>,
) -> SearchState {
    if at.state >= DONE {
        at
    } else if at.state == COMPUTE {
        SearchState {
            state: SUBMIT_OPEN_OUT,
            result_offset: region,
            result_bytes: if kind == Kind::Single {
                at.result_bytes
            } else {
                batch_bytes(at.num_queries) as u64
            },
            ..at
        }
    } else {
        match (action_of(kind, at), outcome) {
            (Action::Submit(_), Outcome::Submitted) => SearchState {
                state: (at.state + 1) as u32,
                ..at
            },
            (Action::Wait, Outcome::Replied(value)) => {
                let moved = SearchState { state: (at.state + 1) as u32, ..at };
                if at.state == WAIT_OPEN_DB {
                    SearchState { fd: value, db_offset: region, ..moved }
                } else if at.state == WAIT_READ_DB {
                    SearchState { db_count: word_at(data, at.db_offset as int), ..moved }
                } else if at.state == WAIT_OPEN_Q {
                    SearchState { fd: value, query_offset: region, ..moved }
                } else if at.state == WAIT_READ_Q && kind == Kind::Batch {
                    SearchState { num_queries: word_at(data, at.query_offset as int), ..moved }
                } else if at.state == WAIT_CLOSE_DB || at.state == WAIT_CLOSE_Q {
                    SearchState { fd: 0, ..moved }
                } else if at.state == WAIT_OPEN_OUT {
                    SearchState { fd: value, ..moved }
                } else {
                    moved
                }
            },
            _ => at,
        }
    }
}

/// What a poll reports.
pub open spec fn report(at: SearchState, outcome: Outcome) -> WarpPoll {
    if at.state == WAIT_CLOSE_OUT && outcome is Replied {
        WarpPoll::Ready(true)
    } else if at.state >= DONE {
        WarpPoll::Ready(at.state == DONE)
    } else {
        WarpPoll::Pending
    }
}

/// Offsets are passed between lanes as 32-bit words.
pub open spec fn low_word(offset: u64) -> int {
    offset as int % 0x1_0000_0000
}

/// What the results of a single search are in a file.
pub open spec fn single_results<S: Scalar>(at: SearchState, data: Seq<u8>) -> Seq<u32> {
    seq![10u32] + list_words(
        matches_for::<S>(
            data,
            low_word(at.db_offset) + 8,
            at.db_count as nat,
            low_word(at.query_offset) + 4,
        ),
    )
}

/// What the results of a batch are in a file.
pub open spec fn batch_results<S: Scalar>(at: SearchState, data: Seq<u8>) -> Seq<u32> {
    seq![at.num_queries, 10u32] + Seq::new(
        (at.num_queries * 20) as nat,
        |i: int|
            list_words(
                matches_for::<S>(
                    data,
                    low_word(at.db_offset) + 8,
                    at.db_count as nat,
                    low_word(at.query_offset) + 8 + 512 * (i / 20),
                ),
            )[i % 20],
    )
}

/// Two stretches of the sideband buffer do not overlap.
pub open spec fn apart(a: int, a_len: int, b: int, b_len: int) -> bool {
    a + a_len <= b || b + b_len <= a
}

/// The sideband buffer holds what a poll reads, and room for what it writes. The
/// results of a batch are written while its queries are read, so they lie apart.
pub open spec fn readable(
    kind: Kind,
    at: SearchState,
    outcome: Outcome,
    region: u64,
    data: Seq<u8>,
) -> bool {
    let vecs = low_word(at.db_offset) + 8;
    &&& at.state == WAIT_READ_DB && outcome is Replied ==> at.db_offset + 4 <= data.len()
    &&& at.state == WAIT_READ_Q && outcome is Replied && kind == Kind::Batch ==> at.query_offset + 4
        <= data.len()
    &&& at.state == COMPUTE ==> {
        &&& vecs + 512 * at.db_count <= data.len()
        &&& kind == Kind::Single ==> {
            &&& low_word(at.query_offset) + 516 <= data.len()
            &&& region + RESULT_BYTES <= data.len()
        }
        &&& kind == Kind::Batch ==> {
            let queries = low_word(at.query_offset) + 8;
            &&& queries + 512 * at.num_queries <= data.len()
            &&& low_word(region) + batch_bytes(at.num_queries) <= data.len()
            &&& apart(
                low_word(region),
                batch_bytes(at.num_queries),
                vecs,
                512 * at.db_count as int,
            )
            &&& apart(
                low_word(region),
                batch_bytes(at.num_queries),
                queries,
                512 * at.num_queries as int,
            )
        }
    }
}

/// The sideband buffer after a poll.
pub open spec fn data_after<S: Scalar>(
    kind: Kind,
    at: SearchState,
    region: u64,
    data: Seq<u8>,
) -> Seq<u8> {
    if at.state != COMPUTE {
        data
    } else if kind == Kind::Single {
        patched(data, region as int, words_bytes(single_results::<S>(at, data)))
    } else {
        patched(data, low_word(region), words_bytes(batch_results::<S>(at, data)))
    }
}

/// What a search does in its state.
pub fn action(kind: Kind, at: &SearchState) -> (r: Action)
    ensures
        r == action_of(kind, *at),
{
    let single: bool = match kind {
        Kind::Single => true,
        Kind::Batch => false,
    };
    match at.state {
        SUBMIT_OPEN_DB => Action::Submit(
            Call::Open { file: SearchFile::Database, mode: OpenMode::Read },
        ),
        SUBMIT_READ_DB => Action::Submit(
            Call::BulkRead { fd: at.fd, offset: at.db_offset, length: DB_REGION },
        ),
        SUBMIT_OPEN_Q => Action::Submit(
            Call::Open {
                file: if single {
                    SearchFile::Query
                } else {
                    SearchFile::Queries
                },
                mode: OpenMode::Read,
            },
        ),
        SUBMIT_READ_Q => Action::Submit(
            Call::BulkRead {
                fd: at.fd,
                offset: at.query_offset,
                length: if single {
                    QUERY_REGION
                } else {
                    BATCH_REGION
                },
            },
        ),
        SUBMIT_OPEN_OUT => Action::Submit(
            Call::Open {
                file: if single {
                    SearchFile::Results
                } else {
                    SearchFile::BatchResults
                },
                mode: OpenMode::WriteCreate,
            },
        ),
        SUBMIT_WRITE => Action::Submit(
            Call::BulkWrite {
                fd: at.fd,
                offset: at.result_offset,
                length: if single {
                    RESULT_BYTES
                } else {
                    at.result_bytes
                },
            },
        ),
        SUBMIT_CLOSE_DB | SUBMIT_CLOSE_Q | SUBMIT_CLOSE_OUT => Action::Submit(
            Call::Close { fd: at.fd },
        ),
        COMPUTE => Action::Compute,
        DONE => Action::Stop(true),
        other => if other < DONE {
            Action::Wait
        } else {
            Action::Stop(false)
        },
    }
}

/// The sideband space that a poll with this outcome asks for.
pub fn allocation(kind: Kind, at: &SearchState, outcome: Outcome) -> (r: Option<Allocation>)
    ensures
        r == allocation_of(kind, *at, outcome),
{
    let single: bool = match kind {
        Kind::Single => true,
        Kind::Batch => false,
    };
    let replied: bool = match outcome {
        Outcome::Replied(_) => true,
        _ => false,
    };
    if at.state == WAIT_OPEN_DB && replied {
        Some(Allocation { reset: true, bytes: DB_REGION })
    } else if at.state == WAIT_OPEN_Q && replied {
        let bytes: u64 = if single {
            QUERY_REGION
        } else {
            BATCH_REGION
        };
        Some(Allocation { reset: false, bytes })
    } else if at.state == COMPUTE {
        let bytes: u64 = if single {
            RESULT_BYTES
        } else {
            8 + at.num_queries as u64 * 80
        };
        Some(Allocation { reset: false, bytes })
    } else {
        None
    }
}

fn advance(kind: Kind, at: &mut SearchState, outcome: Outcome, region: u64, data: &Vec<u8>) -> (r:
    WarpPoll)
    requires
        old(at).state != COMPUTE,
        readable(kind, *old(at), outcome, region, data@),
    ensures
        *final(at) == next_state(kind, *old(at), outcome, region, data@),
        r == report(*old(at), outcome),
{
    if at.state >= DONE {
        return WarpPoll::Ready(at.state == DONE);
    }
    let _size: usize = data.len();
    let doing = action(kind, at);
    match doing {
        Action::Submit(_) => {
            if let Outcome::Submitted = outcome {
                at.state = at.state + 1;
            }
        },
        Action::Wait => {
            if let Outcome::Replied(value) = outcome {
                let state: u32 = at.state;
                match state {
                    WAIT_OPEN_DB => {
                        at.fd = value;
                        at.db_offset = region;
                    },
                    WAIT_READ_DB => {
                        at.db_count = read_word(data.as_slice(), at.db_offset as usize);
                    },
                    WAIT_OPEN_Q => {
                        at.fd = value;
                        at.query_offset = region;
                    },
                    WAIT_READ_Q => {
                        if let Kind::Batch = kind {
                            at.num_queries = read_word(data.as_slice(), at.query_offset as usize);
                        }
                    },
                    WAIT_CLOSE_DB | WAIT_CLOSE_Q => {
                        at.fd = 0;
                    },
                    WAIT_OPEN_OUT => {
                        at.fd = value;
                    },
                    _ => {},
                }
                at.state = state + 1;
                if state == WAIT_CLOSE_OUT {
                    return WarpPoll::Ready(true);
                }
            }
        },
        _ => {},
    }
    WarpPoll::Pending
}

/// A search for the best matches of one query.
pub struct VecSearchFuture<S> {
    pub at: SearchState,
    pub top_k: Vec<TopKEntry<S>>,
}

impl<S: Scalar> VecSearchFuture<S> {
    pub fn new() -> (r: VecSearchFuture<S>)
        ensures
            r.at == initial_state(),
            r.top_k@ == blank_list::<S>(),
    {
        VecSearchFuture {
            at: SearchState {
                state: SUBMIT_OPEN_DB,
                fd: 0,
                db_count: 0,
                num_queries: 0,
                db_offset: 0,
                query_offset: 0,
                result_offset: 0,
                result_bytes: 0,
            },
            top_k: new_list(),
        }
    }

    /// Polls the search: `outcome` tells what became of the packet that its action
    /// dealt with, and `region` is the sideband space that it asked for.
    pub fn poll_warp(&mut self, outcome: Outcome, region: u64, data: &mut Vec<u8>) -> (r: WarpPoll)
        requires
            readable(Kind::Single, old(self).at, outcome, region, old(data)@),
        ensures
            final(self).at == next_state(Kind::Single, old(self).at, outcome, region, old(data)@),
            r == report(old(self).at, outcome),
            final(data)@ == data_after::<S>(Kind::Single, old(self).at, region, old(data)@),
            final(self).top_k@ == if old(self).at.state == COMPUTE {
                matches_for::<S>(
                    old(data)@,
                    low_word(old(self).at.db_offset) + 8,
                    old(self).at.db_count as nat,
                    low_word(old(self).at.query_offset) + 4,
                )
            } else {
                old(self).top_k@
            },
    {
        if self.at.state != COMPUTE {
            return advance(Kind::Single, &mut self.at, outcome, region, data);
        }
        let _size: usize = data.len();
        let db_off: usize = (self.at.db_offset % 0x1_0000_0000) as usize;
        let q_off: usize = (self.at.query_offset % 0x1_0000_0000) as usize;
        let n: usize = self.at.db_count as usize;
        self.top_k = find_matches(data, db_off + 8, n, q_off + 4);
        let mut words: Vec<u32> = Vec::new();
        words.push(VS_K as u32);
        append_list(&mut words, &self.top_k);
        assert(words@ =~= single_results::<S>(old(self).at, old(data)@));
        write_words(data, region as usize, &words);
        self.at.result_offset = region;
        self.at.state = SUBMIT_OPEN_OUT;
        WarpPoll::Pending
    }
}

/// A search for the best matches of a batch of queries.
pub struct BatchSearchFuture {
    pub at: SearchState,
}

impl BatchSearchFuture {
    pub fn new() -> (r: BatchSearchFuture)
        ensures
            r.at == initial_state(),
    {
        BatchSearchFuture {
            at: SearchState {
                state: SUBMIT_OPEN_DB,
                fd: 0,
                db_count: 0,
                num_queries: 0,
                db_offset: 0,
                query_offset: 0,
                result_offset: 0,
                result_bytes: 0,
            },
        }
    }

    /// Polls the search: `outcome` tells what became of the packet that its action
    /// dealt with, and `region` is the sideband space that it asked for.
    pub fn poll_warp<S: Scalar>(&mut self, outcome: Outcome, region: u64, data: &mut Vec<u8>) -> (r:
        WarpPoll)
        requires
            readable(Kind::Batch, old(self).at, outcome, region, old(data)@),
        ensures
            final(self).at == next_state(Kind::Batch, old(self).at, outcome, region, old(data)@),
            r == report(old(self).at, outcome),
            final(data)@ == data_after::<S>(Kind::Batch, old(self).at, region, old(data)@),
    {
        if self.at.state != COMPUTE {
            return advance(Kind::Batch, &mut self.at, outcome, region, data);
        }
        let size: usize = data.len();
        let db_off: usize = (self.at.db_offset % 0x1_0000_0000) as usize;
        let q_off: usize = (self.at.query_offset % 0x1_0000_0000) as usize;
        let r_off: usize = (region % 0x1_0000_0000) as usize;
        let n: usize = self.at.db_count as usize;
        let nq: usize = self.at.num_queries as usize;
        let ghost whole = batch_results::<S>(self.at, data@);
        let ghost at0 = self.at;
        let mut words: Vec<u32> = Vec::new();
        words.push(self.at.num_queries);
        words.push(VS_K as u32);
        for q in 0..nq
            invariant
                size == data@.len(),
                at0.num_queries == nq,
                at0.db_count == n,
                db_off == low_word(at0.db_offset),
                q_off == low_word(at0.query_offset),
                db_off + 8 + 512 * n <= size,
                q_off + 8 + 512 * nq <= size,
                n <= u32::MAX,
                whole == batch_results::<S>(at0, data@),
                words@ == whole.take(2 + 20 * q),
        {
            let list: Vec<TopKEntry<S>> = find_matches(data, db_off + 8, n, q_off + 8 + 512 * q);
            let ghost before = words@;
            append_list(&mut words, &list);
            assert(words@ =~= whole.take(2 + 20 * (q + 1))) by {
                assert forall|k: int| 2 + 20 * q <= k < 2 + 20 * (q + 1) implies words@[k]
                    == whole[k] by {
                    assert((k - 2) / 20 == q && (k - 2) % 20 == k - 2 - 20 * q);
                }
            }
        }
        assert(words@ =~= whole);
        write_words(data, r_off, &words);
        self.at.result_offset = region;
        self.at.result_bytes = 8 + self.at.num_queries as u64 * 80;
        self.at.state = SUBMIT_OPEN_OUT;
        WarpPoll::Pending
    }
}

/// What the kernel leaves when its task, a [`VecSearchFuture`], has ended.
pub fn vector_search_pipeline(ok: bool, lane: u32, status: &mut u32)
    ensures
        *final(status) == left_word(ok, lane, *old(status)),
{
    leave_word(ok, lane, status);
}

/// What the kernel leaves when its task, a [`BatchSearchFuture`], has ended.
pub fn batch_search_pipeline(ok: bool, lane: u32, status: &mut u32)
    ensures
        *final(status) == left_word(ok, lane, *old(status)),
{
    leave_word(ok, lane, status);
}

/// A search never goes back and never skips a state.
pub proof fn search_moves_forward(
    kind: Kind,
    at: SearchState,
    outcome: Outcome,
    region: u64,
    data: Seq<u8>,
)
    requires
        at.state <= DONE,
    ensures
        ({
            let next = next_state(kind, at, outcome, region, data).state;
            next == at.state || next == at.state + 1
        }),
        next_state(kind, at, outcome, region, data).state <= DONE,
{
}

/// A call is made with the file that the last open gave: the database is read and
/// closed, and the results are written and closed, through the descriptor that the
/// host returned for them.
pub proof fn calls_use_the_open_file(
    kind: Kind,
    at: SearchState,
    fd: u64,
    region: u64,
    data: Seq<u8>,
)
    requires
        at.state == WAIT_OPEN_DB || at.state == WAIT_OPEN_Q || at.state == WAIT_OPEN_OUT,
    ensures
        match action_of(kind, next_state(kind, at, Outcome::Replied(fd), region, data)) {
            Action::Submit(Call::BulkRead { fd: used, offset, .. }) => used == fd && offset
                == region && at.state != WAIT_OPEN_OUT,
            Action::Submit(Call::BulkWrite { fd: used, .. }) => used == fd && at.state
                == WAIT_OPEN_OUT,
            _ => false,
        },
{
}

/// Whoever drives a search to its end has it report success exactly when the last
/// file was closed.
pub proof fn search_ends_after_close(
    kind: Kind,
    at: SearchState,
    outcome: Outcome,
    region: u64,
    data: Seq<u8>,
)
    requires
        at.state < DONE,
    ensures
        report(at, outcome) is Ready <==> next_state(kind, at, outcome, region, data).state == DONE,
        report(at, outcome) is Ready ==> report(at, outcome) == WarpPoll::Ready(true),
{
}

} // verus!
