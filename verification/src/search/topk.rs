//! The best matches of a search, gathered by the lanes of a warp.
//!
//! Each of the 32 lanes looks at every 32nd vector and keeps its own list of the
//! best. Lane 0 then takes the other lanes' entries into its list, first all the
//! best ones, lane by lane, then all the second best, and so on.

use vstd::prelude::*;

use crate::scalar::{above, Constant, Scalar};

verus! {

/// How many matches a search returns.
pub const VS_K: usize = 10;

/// The lanes of a warp.
pub const WARP_SIZE: usize = 32;

/// A match: a vector's number and its score.
#[derive(Debug, PartialEq, Eq)]
pub struct TopKEntry<S> {
    pub id: u32,
    pub score: S,
}

impl<S: Scalar> TopKEntry<S> {
    /// A place that no match has taken.
    pub open spec fn blank_value() -> TopKEntry<S> {
        TopKEntry { id: u32::MAX, score: S::constant_value(Constant::MinusOne) }
    }

    /// A place that no match has taken.
    pub fn blank() -> (r: TopKEntry<S>)
        ensures
            r == Self::blank_value(),
    {
        TopKEntry { id: u32::MAX, score: S::constant(Constant::MinusOne) }
    }

    /// A copy of the entry.
    pub fn dup(&self) -> (r: TopKEntry<S>)
        ensures
            r == *self,
    {
        TopKEntry { id: self.id, score: self.score.dup() }
    }
}

/// A list without matches.
pub open spec fn blank_list<S: Scalar>() -> Seq<TopKEntry<S>> {
    Seq::new(VS_K as nat, |i: int| TopKEntry::<S>::blank_value())
}

/// Where an entry comes to rest that moves up from place `j` past every entry that
/// it exceeds.
pub open spec fn rest<S: Scalar>(list: Seq<TopKEntry<S>>, e: TopKEntry<S>, j: nat) -> nat
    decreases j,
{
    if j > 0 && above(e.score, list[j - 1].score) {
        rest(list, e, (j - 1) as nat)
    } else {
        j
    }
}

/// A list after a candidate was offered to it: one that exceeds the last entry
/// replaces it and moves up.
pub open spec fn offered<S: Scalar>(list: Seq<TopKEntry<S>>, e: TopKEntry<S>) -> Seq<TopKEntry<S>> {
    if above(e.score, list.last().score) {
        let kept = list.drop_last();
        kept.insert(rest(kept, e, kept.len()) as int, e)
    } else {
        list
    }
}

/// Offers a candidate to a list.
pub fn offer<S: Scalar>(list: &mut Vec<TopKEntry<S>>, e: TopKEntry<S>)
    requires
        old(list)@.len() > 0,
    ensures
        final(list)@ == offered(old(list)@, e),
        final(list)@.len() == old(list)@.len(),
{
    let n: usize = list.len();
    if !e.score.exceeds(&list[n - 1].score) {
        return;
    }
    list.pop();
    let ghost kept = list@;
    assert(kept =~= old(list)@.drop_last());
    let mut j: usize = list.len();
    while j > 0 && e.score.exceeds(&list[j - 1].score)
        invariant
            list@ == kept,
            j <= kept.len(),
            rest(kept, e, kept.len()) == rest(kept, e, j as nat),
        decreases j,
    {
        j -= 1;
    }
    proof {
        lemma_rest_bound(kept, e, kept.len());
    }
    list.insert(j, e);
}

/// The entry of the vector with number `i`.
pub open spec fn entry<S: Scalar>(scores: Seq<S>, i: int) -> TopKEntry<S> {
    TopKEntry { id: i as u32, score: scores[i] }
}

/// A lane's list after `m` of its vectors.
pub open spec fn lane_list<S: Scalar>(scores: Seq<S>, lane: int, m: nat) -> Seq<TopKEntry<S>>
    decreases m,
{
    if m == 0 {
        blank_list()
    } else {
        offered(lane_list(scores, lane, (m - 1) as nat), entry(scores, lane + 32 * (m - 1)))
    }
}

/// How many of `n` vectors a lane looks at.
pub open spec fn lane_share(n: int, lane: int) -> nat {
    if n <= lane {
        0
    } else {
        ((n - lane + 31) / 32) as nat
    }
}

/// All lanes' lists.
pub open spec fn lane_lists<S: Scalar>(scores: Seq<S>) -> Seq<Seq<TopKEntry<S>>> {
    Seq::new(
        WARP_SIZE as nat,
        |lane: int| lane_list(scores, lane, lane_share(scores.len() as int, lane)),
    )
}

/// Lane 0's list after it took in `t` entries of the other lanes.
pub open spec fn merged<S: Scalar>(lists: Seq<Seq<TopKEntry<S>>>, t: nat) -> Seq<TopKEntry<S>>
    decreases t,
{
    if t == 0 {
        lists[0]
    } else {
        offered(
            merged(lists, (t - 1) as nat),
            lists[1 + (t - 1) % 31][(t - 1) / 31],
        )
    }
}

/// The matches that a search over vectors with these scores returns.
pub open spec fn best<S: Scalar>(scores: Seq<S>) -> Seq<TopKEntry<S>> {
    merged(lane_lists(scores), 310)
}

/// A list without matches.
pub fn new_list<S: Scalar>() -> (r: Vec<TopKEntry<S>>)
    ensures
        r@ == blank_list::<S>(),
{
    let mut r: Vec<TopKEntry<S>> = Vec::new();
    for i in 0..VS_K
        invariant
            r@ == blank_list::<S>().take(i as int),
    {
        r.push(TopKEntry::blank());
    }
    r
}

/// Merges the lists of all lanes.
pub fn merge_lanes<S: Scalar>(lists: &Vec<Vec<TopKEntry<S>>>) -> (r: Vec<TopKEntry<S>>)
    requires
        lists@.len() == WARP_SIZE,
        forall|s: int| 0 <= s < WARP_SIZE ==> (#[trigger] lists@[s])@.len() == VS_K,
    ensures
        r@ == merged(lists@.map_values(|l: Vec<TopKEntry<S>>| l@), 310),
{
    let ghost all = lists@.map_values(|l: Vec<TopKEntry<S>>| l@);
    let mut r: Vec<TopKEntry<S>> = Vec::new();
    for i in 0..VS_K
        invariant
            lists@.len() == WARP_SIZE,
            lists@[0]@.len() == VS_K,
            r@ == lists@[0]@.take(i as int),
    {
        r.push(lists[0][i].dup());
    }
    assert(r@ =~= all[0]);
    for k in 0..VS_K
        invariant
            lists@.len() == WARP_SIZE,
            forall|s: int| 0 <= s < WARP_SIZE ==> (#[trigger] lists@[s])@.len() == VS_K,
            all == lists@.map_values(|l: Vec<TopKEntry<S>>| l@),
            r@.len() == VS_K,
            r@ == merged(all, (k * 31) as nat),
    {
        for s in 1..WARP_SIZE
            invariant
                0 <= k < VS_K,
                lists@.len() == WARP_SIZE,
                forall|s: int| 0 <= s < WARP_SIZE ==> (#[trigger] lists@[s])@.len() == VS_K,
                all == lists@.map_values(|l: Vec<TopKEntry<S>>| l@),
                r@.len() == VS_K,
                r@ == merged(all, (k * 31 + (s - 1)) as nat),
        {
            let ghost t = (k * 31 + (s - 1)) as nat;
            assert(t / 31 == k && t % 31 == s - 1);
            assert(all[s as int] == lists@[s as int]@);
            let candidate = lists[s][k].dup();
            offer(&mut r, candidate);
        }
    }
    r
}

proof fn lemma_rest_bound<S: Scalar>(list: Seq<TopKEntry<S>>, e: TopKEntry<S>, j: nat)
    ensures
        rest(list, e, j) <= j,
        forall|i: int|
            rest(list, e, j) <= i < j ==> above(e.score, (#[trigger] list[i]).score),
        rest(list, e, j) > 0 ==> !above(e.score, list[rest(list, e, j) - 1].score),
    decreases j,
{
    if j > 0 && above(e.score, list[j - 1].score) {
        lemma_rest_bound(list, e, (j - 1) as nat);
    }
}

/// Every entry's score has a place in the order.
pub open spec fn comparable<S: Scalar>(list: Seq<TopKEntry<S>>) -> bool {
    forall|i: int| 0 <= i < list.len() ==> S::rank((#[trigger] list[i]).score) is Some
}

/// No entry exceeds one before it.
pub open spec fn descending<S: Scalar>(list: Seq<TopKEntry<S>>) -> bool {
    forall|i: int, j: int|
        0 <= i < j < list.len() ==> !above((#[trigger] list[j]).score, (#[trigger] list[i]).score)
}

/// All scores, and the score of a place that no match has taken, can be compared.
pub open spec fn scores_comparable<S: Scalar>(scores: Seq<S>) -> bool {
    &&& S::rank(S::constant_value(Constant::MinusOne)) is Some
    &&& forall|i: int| 0 <= i < scores.len() ==> S::rank(#[trigger] scores[i]) is Some
}

spec fn rk<S: Scalar>(e: TopKEntry<S>) -> int {
    S::rank(e.score)->0
}

/// A list that `offered` keeps in good order.
spec fn in_order<S: Scalar>(list: Seq<TopKEntry<S>>) -> bool {
    list.len() == VS_K && comparable(list) && descending(list)
}

proof fn lemma_offered<S: Scalar>(list: Seq<TopKEntry<S>>, e: TopKEntry<S>)
    requires
        in_order(list),
        S::rank(e.score) is Some,
    ensures
        in_order(offered(list, e)),
        rk(offered(list, e).last()) >= rk(list.last()),
        offered(list, e).contains(e) || rk(e) <= rk(offered(list, e).last()),
        forall|x: TopKEntry<S>|
            list.contains(x) ==> offered(list, e).contains(x) || rk(x) <= rk(
                offered(list, e).last(),
            ),
        forall|i: int|
            0 <= i < VS_K ==> list.contains(#[trigger] offered(list, e)[i]) || offered(list, e)[i]
                == e,
{
    let after = offered(list, e);
    if above(e.score, list.last().score) {
        let kept = list.drop_last();
        let p = rest(kept, e, kept.len()) as int;
        lemma_rest_bound(kept, e, kept.len());
        assert(after == kept.insert(p, e));
        assert(after.len() == VS_K);
        assert(after[p] == e);
        assert forall|i: int| 0 <= i < VS_K implies S::rank((#[trigger] after[i]).score) is Some by {
            if i < p {
                assert(after[i] == list[i]);
            } else if i > p {
                assert(after[i] == list[i - 1]);
            }
        }
        assert forall|i: int, j: int| 0 <= i < j < after.len() implies !above(
            (#[trigger] after[j]).score,
            (#[trigger] after[i]).score,
        ) by {
            assert(p > 0 ==> !above(e.score, list[p - 1].score));
            if i < p {
                assert(after[i] == list[i]);
                if j == p {
                    assert(i == p - 1 || !above(list[p - 1].score, list[i].score));
                } else if j < p {
                    assert(after[j] == list[j]);
                } else {
                    assert(after[j] == list[j - 1]);
                }
            } else if i == p {
                assert(after[j] == list[j - 1]);
                assert(above(e.score, kept[j - 1].score));
            } else {
                assert(after[i] == list[i - 1] && after[j] == list[j - 1]);
            }
        }
        let q = VS_K - 1;
        if p == q {
            assert(after.last() == e);
        } else {
            assert(after.last() == list[q - 1]);
            assert(!above(list[q].score, list[q - 1].score));
        }
        assert forall|x: TopKEntry<S>| list.contains(x) implies after.contains(x) || rk(x) <= rk(
            after.last(),
        ) by {
            let i = choose|i: int| 0 <= i < list.len() && list[i] == x;
            if i < p {
                assert(after[i] == x);
            } else if i < q {
                assert(after[i + 1] == x);
            }
        }
        assert forall|i: int| 0 <= i < VS_K implies list.contains(#[trigger] after[i]) || after[i]
            == e by {
            if i < p {
                assert(after[i] == list[i]);
            } else if i > p {
                assert(after[i] == list[i - 1]);
            }
        }
        assert(after.contains(e));
    } else {
        assert forall|i: int| 0 <= i < VS_K implies list.contains(#[trigger] after[i]) || after[i]
            == e by {
            assert(after[i] == list[i]);
        }
    }
}

/// The first `c` entries reach rank `x`.
spec fn reaches<S: Scalar>(list: Seq<TopKEntry<S>>, c: int, x: int) -> bool {
    forall|i: int| 0 <= i < c && i < VS_K ==> rk(#[trigger] list[i]) >= x
}

proof fn lemma_reaches<S: Scalar>(list: Seq<TopKEntry<S>>, e: TopKEntry<S>, c: int, x: int)
    requires
        in_order(list),
        S::rank(e.score) is Some,
        0 <= c,
        reaches(list, c, x),
    ensures
        reaches(offered(list, e), c, x),
        rk(e) >= x ==> reaches(offered(list, e), c + 1, x),
{
    let after = offered(list, e);
    if above(e.score, list.last().score) {
        let kept = list.drop_last();
        let p = rest(kept, e, kept.len()) as int;
        lemma_rest_bound(kept, e, kept.len());
        assert(after == kept.insert(p, e));
        assert forall|i: int| 0 <= i < c && i < VS_K implies rk(#[trigger] after[i]) >= x by {
            if i < p {
                assert(after[i] == list[i]);
            } else if i == p {
                if i < VS_K - 1 {
                    assert(above(e.score, kept[i].score));
                }
                assert(rk(list[i]) >= x);
            } else {
                assert(after[i] == list[i - 1]);
            }
        }
        if rk(e) >= x {
            assert forall|i: int| 0 <= i < c + 1 && i < VS_K implies rk(#[trigger] after[i])
                >= x by {
                if i < p {
                    assert(after[i] == list[i]);
                    if i == c {
                        assert(!above(list[p - 1].score, list[i].score) || i == p - 1);
                    }
                } else if i > p {
                    assert(after[i] == list[i - 1]);
                }
            }
        }
    } else if rk(e) >= x {
        assert forall|i: int| 0 <= i < c + 1 && i < VS_K implies rk(#[trigger] after[i]) >= x by {
            assert(!above(list[VS_K - 1].score, list[i].score) || i == VS_K - 1);
        }
    }
}

proof fn lemma_lane<S: Scalar>(scores: Seq<S>, lane: int, m: nat)
    requires
        scores_comparable(scores),
        0 <= lane < WARP_SIZE,
        m <= lane_share(scores.len() as int, lane),
    ensures
        in_order(lane_list(scores, lane, m)),
        forall|j: int|
            0 <= j < m ==> lane_list(scores, lane, m).contains(
                #[trigger] entry(scores, lane + 32 * j),
            ) || rk(entry(scores, lane + 32 * j)) <= rk(lane_list(scores, lane, m).last()),
        forall|i: int|
            0 <= i < VS_K ==> (#[trigger] lane_list(scores, lane, m)[i]) == TopKEntry::<
                S,
            >::blank_value() || exists|v: int|
                0 <= v < scores.len() && lane_list(scores, lane, m)[i] == entry(scores, v),
    decreases m,
{
    let list = lane_list(scores, lane, m);
    if m == 0 {
        assert(list == blank_list::<S>());
        assert forall|i: int| 0 <= i < VS_K implies (#[trigger] list[i]) == TopKEntry::<
            S,
        >::blank_value() by {}
    } else {
        let before = lane_list(scores, lane, (m - 1) as nat);
        lemma_lane(scores, lane, (m - 1) as nat);
        let v = lane + 32 * (m - 1);
        assert(v < scores.len());
        let e = entry(scores, v);
        assert(S::rank(scores[v]) is Some);
        lemma_offered(before, e);
        assert(list == offered(before, e));
        assert forall|j: int| 0 <= j < m implies list.contains(
            #[trigger] entry(scores, lane + 32 * j),
        ) || rk(entry(scores, lane + 32 * j)) <= rk(list.last()) by {}
        assert forall|i: int| 0 <= i < VS_K implies (#[trigger] list[i]) == TopKEntry::<
            S,
        >::blank_value() || exists|v: int| 0 <= v < scores.len() && list[i] == entry(scores, v) by {
            if list[i] != e {
                let k = choose|k: int| 0 <= k < before.len() && before[k] == list[i];
                assert(before[k] == list[i]);
            }
        }
    }
}

/// Each entry of the list is blank or belongs to a vector.
spec fn made_of<S: Scalar>(scores: Seq<S>, list: Seq<TopKEntry<S>>) -> bool {
    forall|i: int|
        0 <= i < VS_K ==> (#[trigger] list[i]) == TopKEntry::<S>::blank_value() || exists|v: int|
            0 <= v < scores.len() && list[i] == entry(scores, v)
}

/// An entry is in the list, or does not exceed its last.
spec fn settled<S: Scalar>(list: Seq<TopKEntry<S>>, x: TopKEntry<S>) -> bool {
    list.contains(x) || rk(x) <= rk(list.last())
}

/// The entry that is taken in as number `u`.
spec fn taken<S: Scalar>(lists: Seq<Seq<TopKEntry<S>>>, u: int) -> TopKEntry<S> {
    lists[1 + u % 31][u / 31]
}

proof fn lemma_lists<S: Scalar>(scores: Seq<S>)
    requires
        scores_comparable(scores),
    ensures
        forall|s: int|
            0 <= s < WARP_SIZE ==> in_order(#[trigger] lane_lists(scores)[s]) && made_of(
                scores,
                lane_lists(scores)[s],
            ),
{
    assert forall|s: int| 0 <= s < WARP_SIZE implies in_order(#[trigger] lane_lists(scores)[s])
        && made_of(scores, lane_lists(scores)[s]) by {
        lemma_lane(scores, s, lane_share(scores.len() as int, s));
    }
}

proof fn lemma_merged_order<S: Scalar>(scores: Seq<S>, t: nat)
    requires
        scores_comparable(scores),
        t <= 310,
    ensures
        in_order(merged(lane_lists(scores), t)),
        made_of(scores, merged(lane_lists(scores), t)),
    decreases t,
{
    let lists = lane_lists(scores);
    lemma_lists(scores);
    if t == 0 {
        assert(in_order(lists[0]));
    } else {
        let before = merged(lists, (t - 1) as nat);
        lemma_merged_order(scores, (t - 1) as nat);
        let s0 = 1 + (t - 1) % 31;
        let e = lists[s0][(t - 1) / 31];
        assert(in_order(lists[s0]));
        lemma_offered(before, e);
        let list = merged(lists, t);
        assert forall|i: int| 0 <= i < VS_K implies (#[trigger] list[i]) == TopKEntry::<
            S,
        >::blank_value() || exists|v: int| 0 <= v < scores.len() && list[i] == entry(scores, v) by {
            if list[i] != e {
                let k = choose|k: int| 0 <= k < before.len() && before[k] == list[i];
                assert(before[k] == list[i]);
            }
        }
    }
}

/// What was settled stays settled.
proof fn lemma_stays_settled<S: Scalar>(scores: Seq<S>, t1: nat, t2: nat, x: TopKEntry<S>)
    requires
        scores_comparable(scores),
        t1 <= t2 <= 310,
        settled(merged(lane_lists(scores), t1), x),
    ensures
        settled(merged(lane_lists(scores), t2), x),
    decreases t2,
{
    if t1 < t2 {
        let lists = lane_lists(scores);
        lemma_stays_settled(scores, t1, (t2 - 1) as nat, x);
        lemma_merged_order(scores, (t2 - 1) as nat);
        lemma_lists(scores);
        let s0 = 1 + (t2 - 1) % 31;
        assert(in_order(lists[s0]));
        lemma_offered(merged(lists, (t2 - 1) as nat), lists[s0][(t2 - 1) / 31]);
    }
}

/// Each entry that was taken in is settled at the end.
proof fn lemma_taken_settled<S: Scalar>(scores: Seq<S>, u: nat)
    requires
        scores_comparable(scores),
        u < 310,
    ensures
        settled(best(scores), taken(lane_lists(scores), u as int)),
{
    let lists = lane_lists(scores);
    lemma_merged_order(scores, u);
    lemma_lists(scores);
    let s0 = 1 + u as int % 31;
    assert(in_order(lists[s0]));
    lemma_offered(merged(lists, u), lists[s0][(u / 31) as int]);
    lemma_stays_settled(scores, u + 1, 310, taken(lists, u as int));
}

/// Once `c` of a lane's entries were taken in, so many places reach that lane's
/// last entry.
#[verifier::spinoff_prover]
proof fn lemma_merged_reaches<S: Scalar>(scores: Seq<S>, t: nat, s: int)
    requires
        scores_comparable(scores),
        t <= 310,
        1 <= s < WARP_SIZE,
    ensures
        reaches(merged(lane_lists(scores), t), (t + 31 - s) / 31, rk(lane_lists(scores)[s].last())),
    decreases t,
{
    let lists = lane_lists(scores);
    let x = rk(lists[s].last());
    if t == 0 {
        assert((31 - s) / 31 == 0);
    } else {
        let before = merged(lists, (t - 1) as nat);
        lemma_merged_reaches(scores, (t - 1) as nat, s);
        lemma_merged_order(scores, (t - 1) as nat);
        lemma_lists(scores);
        let s0 = 1 + (t - 1) % 31;
        let k0 = (t - 1) / 31;
        let e = lists[s0][k0];
        assert(in_order(lists[s0]));
        let c = (t - 1 + 31 - s) / 31;
        lemma_reaches(before, e, c, x);
        if s == s0 {
            assert(t - s == 31 * k0);
            assert((t + 31 - s) / 31 == c + 1);
            assert(!above(lists[s][VS_K - 1].score, lists[s][k0].score) || k0 == VS_K - 1);
            assert(rk(e) >= x);
        } else {
            assert((t - s) % 31 != 0);
            assert((t + 31 - s) / 31 == c);
        }
    }
}

proof fn lemma_merged_reaches_first<S: Scalar>(scores: Seq<S>, t: nat)
    requires
        scores_comparable(scores),
        t <= 310,
    ensures
        reaches(merged(lane_lists(scores), t), VS_K as int, rk(lane_lists(scores)[0].last())),
    decreases t,
{
    let lists = lane_lists(scores);
    lemma_lists(scores);
    if t == 0 {
        let list = lists[0];
        assert(in_order(list));
        assert forall|i: int| 0 <= i < VS_K implies rk(#[trigger] list[i]) >= rk(list.last()) by {
            assert(!above(list[VS_K - 1].score, list[i].score) || i == VS_K - 1);
        }
    } else {
        lemma_merged_reaches_first(scores, (t - 1) as nat);
        lemma_merged_order(scores, (t - 1) as nat);
        let s0 = 1 + (t - 1) % 31;
        assert(in_order(lists[s0]));
        lemma_reaches(
            merged(lists, (t - 1) as nat),
            lists[s0][(t - 1) / 31],
            VS_K as int,
            rk(lists[0].last()),
        );
    }
}

/// The matches come out best first.
pub proof fn matches_are_sorted<S: Scalar>(scores: Seq<S>)
    requires
        scores_comparable(scores),
    ensures
        best(scores).len() == VS_K,
        descending(best(scores)),
{
    lemma_merged_order(scores, 310);
}

/// Every match is a vector of the database with its own score; the other places are
/// blank.
pub proof fn matches_are_vectors<S: Scalar>(scores: Seq<S>, i: int)
    requires
        scores_comparable(scores),
        0 <= i < VS_K,
    ensures
        best(scores)[i] == TopKEntry::<S>::blank_value() || exists|v: int|
            0 <= v < scores.len() && best(scores)[i] == entry(scores, v),
{
    lemma_merged_order(scores, 310);
}

/// No vector that was left out exceeds one that was returned, whichever lane looked
/// at it.
pub proof fn nothing_better_is_left_out<S: Scalar>(scores: Seq<S>, v: int)
    requires
        scores_comparable(scores),
        0 <= v < scores.len(),
    ensures
        best(scores).contains(entry(scores, v)) || forall|i: int|
            0 <= i < VS_K ==> !above(scores[v], (#[trigger] best(scores)[i]).score),
{
    lemma_merged_order(scores, 310);
    let lists = lane_lists(scores);
    let list = best(scores);
    let lane = v % 32;
    let j = v / 32;
    let share = lane_share(scores.len() as int, lane);
    assert(v == lane + 32 * j);
    assert(0 <= j < share);
    lemma_lane(scores, lane, share);
    let e = entry(scores, lane + 32 * j);
    assert(lists[lane] == lane_list(scores, lane, share));
    assert(S::rank(scores[v]) is Some);
    if lists[lane].contains(e) {
        if lane == 0 {
            lemma_stays_settled(scores, 0, 310, e);
        } else {
            let k = choose|k: int| 0 <= k < lists[lane].len() && lists[lane][k] == e;
            lemma_lists(scores);
            assert(in_order(lists[lane]));
            let u = 31 * k + (lane - 1);
            assert(u / 31 == k && u % 31 == lane - 1);
            lemma_taken_settled(scores, u as nat);
        }
    } else {
        if lane == 0 {
            lemma_merged_reaches_first(scores, 310);
        } else {
            lemma_merged_reaches(scores, 310, lane);
            assert((310 + 31 - lane) / 31 == 10);
        }
        assert(rk(list[VS_K - 1]) >= rk(lists[lane].last()));
    }
    if !list.contains(e) {
        assert(rk(e) <= rk(list.last()));
        assert forall|i: int| 0 <= i < VS_K implies !above(
            scores[v],
            (#[trigger] list[i]).score,
        ) by {
            assert(!above(list[VS_K - 1].score, list[i].score) || i == VS_K - 1);
        }
    }
}

/// The entry stands for a vector.
pub open spec fn is_match<S: Scalar>(e: TopKEntry<S>) -> bool {
    e.id != u32::MAX
}

/// No vector stands in two places of the list.
pub open spec fn distinct_matches<S: Scalar>(list: Seq<TopKEntry<S>>) -> bool {
    forall|i: int, j: int|
        0 <= i < j < list.len() && is_match(#[trigger] list[i]) ==> list[i].id != (
        #[trigger] list[j]).id
}

proof fn lemma_offered_distinct<S: Scalar>(list: Seq<TopKEntry<S>>, e: TopKEntry<S>)
    requires
        list.len() == VS_K,
        distinct_matches(list),
        is_match(e) ==> forall|i: int| 0 <= i < VS_K ==> (#[trigger] list[i]).id != e.id,
    ensures
        offered(list, e).len() == VS_K,
        distinct_matches(offered(list, e)),
        forall|i: int|
            0 <= i < VS_K ==> list.contains(#[trigger] offered(list, e)[i]) || offered(list, e)[i]
                == e,
{
    let after = offered(list, e);
    if above(e.score, list.last().score) {
        let kept = list.drop_last();
        let p = rest(kept, e, kept.len()) as int;
        lemma_rest_bound(kept, e, kept.len());
        assert(after == kept.insert(p, e));
        assert forall|i: int| 0 <= i < VS_K implies list.contains(#[trigger] after[i]) || after[i]
            == e by {
            if i < p {
                assert(after[i] == list[i]);
            } else if i > p {
                assert(after[i] == list[i - 1]);
            }
        }
        assert forall|i: int, j: int|
            0 <= i < j < after.len() && is_match(#[trigger] after[i]) implies after[i].id != (
        #[trigger] after[j]).id by {
            let a = if i < p {
                i
            } else {
                i - 1
            };
            let b = if j < p {
                j
            } else {
                j - 1
            };
            if i == p {
                assert(after[j] == list[b]);
            } else if j == p {
                assert(after[i] == list[a]);
            } else {
                assert(after[i] == list[a] && after[j] == list[b]);
            }
        }
    } else {
        assert forall|i: int| 0 <= i < VS_K implies list.contains(#[trigger] after[i]) || after[i]
            == e by {
            assert(after[i] == list[i]);
        }
    }
}

/// The entry is that of one of the first `m` vectors of a lane.
spec fn of_lane<S: Scalar>(scores: Seq<S>, lane: int, m: int, e: TopKEntry<S>) -> bool {
    exists|j: int| 0 <= j < m && e == #[trigger] entry(scores, lane + 32 * j)
}

proof fn lemma_lane_distinct<S: Scalar>(scores: Seq<S>, lane: int, m: nat)
    requires
        scores.len() <= u32::MAX,
        0 <= lane < WARP_SIZE,
        m <= lane_share(scores.len() as int, lane),
    ensures
        lane_list(scores, lane, m).len() == VS_K,
        distinct_matches(lane_list(scores, lane, m)),
        forall|i: int|
            0 <= i < VS_K && is_match(#[trigger] lane_list(scores, lane, m)[i]) ==> of_lane(
                scores,
                lane,
                m as int,
                lane_list(scores, lane, m)[i],
            ),
    decreases m,
{
    let list = lane_list(scores, lane, m);
    if m == 0 {
        assert(list == blank_list::<S>());
    } else {
        let before = lane_list(scores, lane, (m - 1) as nat);
        lemma_lane_distinct(scores, lane, (m - 1) as nat);
        let v = lane + 32 * (m - 1);
        assert(v < scores.len());
        let e = entry(scores, v);
        assert forall|i: int| 0 <= i < VS_K implies (#[trigger] before[i]).id != e.id by {
            if is_match(before[i]) {
                let j = choose|j: int|
                    0 <= j < m - 1 && before[i] == #[trigger] entry(scores, lane + 32 * j);
                assert(before[i].id == lane + 32 * j);
            }
        }
        lemma_offered_distinct(before, e);
        assert forall|i: int| 0 <= i < VS_K && is_match(#[trigger] list[i]) implies of_lane(
            scores,
            lane,
            m as int,
            list[i],
        ) by {
            if list[i] == e {
                assert(e == entry(scores, lane + 32 * (m - 1)));
            } else {
                let k = choose|k: int| 0 <= k < before.len() && before[k] == list[i];
                assert(is_match(before[k]));
                let j = choose|j: int|
                    0 <= j < m - 1 && before[k] == #[trigger] entry(scores, lane + 32 * j);
                assert(list[i] == entry(scores, lane + 32 * j));
            }
        }
    }
}

/// The number of a lane's vector tells the lane.
proof fn lemma_lane_number<S: Scalar>(scores: Seq<S>, lane: int, m: nat, e: TopKEntry<S>)
    requires
        scores.len() <= u32::MAX,
        0 <= lane < WARP_SIZE,
        m <= lane_share(scores.len() as int, lane),
        of_lane(scores, lane, m as int, e),
    ensures
        e.id as int % 32 == lane,
        e.id < scores.len(),
        e == entry(scores, e.id as int),
{
    let j = choose|j: int| 0 <= j < m && e == #[trigger] entry(scores, lane + 32 * j);
    assert(lane + 32 * j < scores.len());
}

/// The entry comes from the first lane or was one of the first `t` that were taken in.
spec fn from_lanes<S: Scalar>(lists: Seq<Seq<TopKEntry<S>>>, t: int, e: TopKEntry<S>) -> bool {
    lists[0].contains(e) || exists|u: int| 0 <= u < t && e == #[trigger] taken(lists, u)
}

proof fn lemma_merged_distinct<S: Scalar>(scores: Seq<S>, t: nat)
    requires
        scores.len() <= u32::MAX,
        t <= 310,
    ensures
        merged(lane_lists(scores), t).len() == VS_K,
        distinct_matches(merged(lane_lists(scores), t)),
        forall|i: int|
            0 <= i < VS_K ==> from_lanes(
                lane_lists(scores),
                t as int,
                #[trigger] merged(lane_lists(scores), t)[i],
            ),
    decreases t,
{
    let lists = lane_lists(scores);
    let list = merged(lists, t);
    let n = scores.len() as int;
    if t == 0 {
        lemma_lane_distinct(scores, 0, lane_share(n, 0));
        assert(list == lists[0]);
    } else {
        let before = merged(lists, (t - 1) as nat);
        lemma_merged_distinct(scores, (t - 1) as nat);
        let u = t - 1;
        let s = 1 + u % 31;
        let k = u / 31;
        let e = lists[s][k];
        assert(e == taken(lists, u));
        let share = lane_share(n, s);
        lemma_lane_distinct(scores, s, share);
        assert(lists[s] == lane_list(scores, s, share));
        if is_match(e) {
            lemma_lane_number(scores, s, share, e);
            assert forall|i: int| 0 <= i < VS_K implies (#[trigger] before[i]).id != e.id by {
                let x = before[i];
                if x.id == e.id {
                    assert(from_lanes(lists, u, x));
                    if lists[0].contains(x) {
                        lemma_lane_distinct(scores, 0, lane_share(n, 0));
                        let q = choose|q: int| 0 <= q < lists[0].len() && lists[0][q] == x;
                        assert(is_match(lane_list(scores, 0, lane_share(n, 0))[q]));
                        lemma_lane_number(scores, 0, lane_share(n, 0), x);
                    } else {
                        let w = choose|w: int| 0 <= w < u && x == #[trigger] taken(lists, w);
                        let z = 1 + w % 31;
                        lemma_lane_distinct(scores, z, lane_share(n, z));
                        assert(lists[z] == lane_list(scores, z, lane_share(n, z)));
                        assert(is_match(lane_list(scores, z, lane_share(n, z))[w / 31]));
                        lemma_lane_number(scores, z, lane_share(n, z), x);
                        assert(z == s);
                        assert(w / 31 != k);
                        let (lo, hi) = if w / 31 < k {
                            (w / 31, k)
                        } else {
                            (k, w / 31)
                        };
                        assert(is_match(lists[s][lo]));
                        assert(lists[s][lo].id != lists[s][hi].id);
                    }
                }
            }
        }
        lemma_offered_distinct(before, e);
        assert forall|i: int| 0 <= i < VS_K implies from_lanes(
            lists,
            t as int,
            #[trigger] list[i],
        ) by {
            if list[i] == e {
                assert(e == taken(lists, u));
            } else {
                let q = choose|q: int| 0 <= q < before.len() && before[q] == list[i];
                assert(from_lanes(lists, u, before[q]));
                if !lists[0].contains(list[i]) {
                    let w = choose|w: int| 0 <= w < u && before[q] == #[trigger] taken(lists, w);
                    assert(list[i] == taken(lists, w));
                }
            }
        }
    }
}

/// The matches are different vectors.
pub proof fn matches_are_distinct<S: Scalar>(scores: Seq<S>)
    requires
        scores.len() <= u32::MAX,
    ensures
        distinct_matches(best(scores)),
{
    lemma_merged_distinct(scores, 310);
}

/// The score of a place that no match has taken.
pub open spec fn blank_score<S: Scalar>() -> S {
    S::constant_value(Constant::MinusOne)
}

/// A lane's matches exceed a blank.
proof fn lemma_lane_above<S: Scalar>(scores: Seq<S>, lane: int, m: nat)
    requires
        scores_comparable(scores),
        0 <= lane < WARP_SIZE,
        m <= lane_share(scores.len() as int, lane),
    ensures
        S::rank(lane_list(scores, lane, m).last().score)->0 >= S::rank(blank_score::<S>())->0,
        forall|i: int|
            0 <= i < VS_K && is_match(#[trigger] lane_list(scores, lane, m)[i]) ==> above(
                lane_list(scores, lane, m)[i].score,
                blank_score(),
            ),
    decreases m,
{
    let list = lane_list(scores, lane, m);
    if m == 0 {
        assert(list == blank_list::<S>());
    } else {
        let before = lane_list(scores, lane, (m - 1) as nat);
        lemma_lane(scores, lane, (m - 1) as nat);
        lemma_lane_above(scores, lane, (m - 1) as nat);
        let v = lane + 32 * (m - 1);
        assert(v < scores.len());
        let e = entry(scores, v);
        assert(S::rank(scores[v]) is Some);
        lemma_offered(before, e);
        assert forall|i: int| 0 <= i < VS_K && is_match(#[trigger] list[i]) implies above(
            list[i].score,
            blank_score(),
        ) by {
            if before.contains(list[i]) {
                let k = choose|k: int| 0 <= k < before.len() && before[k] == list[i];
                assert(is_match(before[k]));
            } else {
                assert(list[i] == e);
                assert(above(e.score, before.last().score));
            }
        }
    }
}

/// Every match is a vector that exceeds a blank, and every other entry is blank.
proof fn lemma_best_parts<S: Scalar>(scores: Seq<S>, i: int)
    requires
        scores_comparable(scores),
        scores.len() <= u32::MAX,
        0 <= i < VS_K,
    ensures
        ({
            let e = best(scores)[i];
            if is_match(e) {
                &&& e.id < scores.len()
                &&& e == entry(scores, e.id as int)
                &&& above(scores[e.id as int], blank_score())
            } else {
                e == TopKEntry::<S>::blank_value()
            }
        }),
{
    let lists = lane_lists(scores);
    let n = scores.len() as int;
    let e = best(scores)[i];
    lemma_merged_distinct(scores, 310);
    lemma_merged_order(scores, 310);
    assert(from_lanes(lists, 310, e));
    if is_match(e) {
        let (s, k) = if lists[0].contains(e) {
            (0int, choose|q: int| 0 <= q < lists[0].len() && lists[0][q] == e)
        } else {
            let w = choose|w: int| 0 <= w < 310 && e == #[trigger] taken(lists, w);
            (1 + w % 31, w / 31)
        };
        let share = lane_share(n, s);
        lemma_lane_distinct(scores, s, share);
        lemma_lane_above(scores, s, share);
        assert(lists[s] == lane_list(scores, s, share));
        assert(0 <= k < VS_K && lane_list(scores, s, share)[k] == e);
        lemma_lane_number(scores, s, share, e);
    } else {
        assert(made_of(scores, best(scores)));
    }
}

/// The numbers of the first `n` vectors that exceed a blank.
pub open spec fn good_ids<S: Scalar>(scores: Seq<S>, n: nat) -> Set<int>
    decreases n,
{
    if n == 0 {
        Set::empty()
    } else if above(scores[n - 1], blank_score()) {
        good_ids(scores, (n - 1) as nat).insert(n - 1)
    } else {
        good_ids(scores, (n - 1) as nat)
    }
}

proof fn lemma_good_ids<S: Scalar>(scores: Seq<S>, n: nat)
    ensures
        good_ids(scores, n).finite(),
        forall|v: int| #[trigger]
            good_ids(scores, n).contains(v) <==> 0 <= v < n && above(scores[v], blank_score()),
    decreases n,
{
    if n > 0 {
        lemma_good_ids(scores, (n - 1) as nat);
    }
}

/// The numbers of the first `c` entries.
spec fn first_ids<S: Scalar>(list: Seq<TopKEntry<S>>, c: nat) -> Set<int>
    decreases c,
{
    if c == 0 {
        Set::empty()
    } else {
        first_ids(list, (c - 1) as nat).insert(list[c - 1].id as int)
    }
}

proof fn lemma_first_ids<S: Scalar>(list: Seq<TopKEntry<S>>, c: nat)
    requires
        c <= list.len(),
        distinct_matches(list),
        forall|i: int| 0 <= i < c ==> is_match(#[trigger] list[i]),
    ensures
        first_ids(list, c).finite(),
        first_ids(list, c).len() == c,
        forall|v: int| #[trigger]
            first_ids(list, c).contains(v) <==> exists|i: int|
                0 <= i < c && (#[trigger] list[i]).id == v,
    decreases c,
{
    if c > 0 {
        lemma_first_ids(list, (c - 1) as nat);
        let id = list[c - 1].id as int;
        let front = first_ids(list, (c - 1) as nat);
        if front.contains(id) {
            let i = choose|i: int| 0 <= i < c - 1 && (#[trigger] list[i]).id == id;
            assert(is_match(list[i]) && list[i].id != list[c - 1].id);
        }
        assert forall|v: int| #[trigger] first_ids(list, c).contains(v) <==> exists|i: int|
            0 <= i < c && (#[trigger] list[i]).id == v by {
            if first_ids(list, c).contains(v) && v != id {
                let i = choose|i: int| 0 <= i < c - 1 && (#[trigger] list[i]).id == v;
                assert(list[i].id == v);
            }
            if exists|i: int| 0 <= i < c && (#[trigger] list[i]).id == v {
                let i = choose|i: int| 0 <= i < c && (#[trigger] list[i]).id == v;
                if i < c - 1 {
                    assert(list[i].id == v);
                }
            }
        }
    } else {
        assert forall|v: int| !(#[trigger] first_ids(list, 0).contains(v)) by {}
    }
}

/// How many entries at the front of a list are matches.
spec fn front_matches<S: Scalar>(list: Seq<TopKEntry<S>>, n: nat) -> nat
    decreases n,
{
    if n == 0 {
        0
    } else if is_match(list[n - 1]) {
        n
    } else {
        front_matches(list, (n - 1) as nat)
    }
}

proof fn lemma_front_matches<S: Scalar>(list: Seq<TopKEntry<S>>, n: nat)
    ensures
        front_matches(list, n) <= n,
        front_matches(list, n) > 0 ==> is_match(list[front_matches(list, n) - 1]),
        forall|i: int| front_matches(list, n) <= i < n ==> !is_match(#[trigger] list[i]),
    decreases n,
{
    if n > 0 && !is_match(list[n - 1]) {
        lemma_front_matches(list, (n - 1) as nat);
    }
}

/// As many matches come back as there are vectors that exceed a blank, but no more than the
/// list has places. They fill the front of the list, and the places behind them are blank.
pub proof fn all_good_vectors_come_back<S: Scalar>(scores: Seq<S>, i: int)
    requires
        scores_comparable(scores),
        scores.len() <= u32::MAX,
        0 <= i < VS_K,
    ensures
        ({
            let good = good_ids(scores, scores.len());
            &&& good.finite()
            &&& is_match(best(scores)[i]) <==> i < good.len()
            &&& is_match(best(scores)[i]) ==> good.contains(best(scores)[i].id as int)
            &&& !is_match(best(scores)[i]) ==> best(scores)[i] == TopKEntry::<S>::blank_value()
        }),
{
    let list = best(scores);
    let good = good_ids(scores, scores.len());
    lemma_good_ids(scores, scores.len());
    lemma_merged_distinct(scores, 310);
    lemma_merged_order(scores, 310);
    lemma_front_matches(list, VS_K as nat);
    let c = front_matches(list, VS_K as nat);
    assert forall|k: int| 0 <= k < c implies is_match(#[trigger] list[k]) by {
        lemma_best_parts(scores, k);
        lemma_best_parts(scores, c - 1);
        if k < c - 1 {
            assert(!above(list[c - 1].score, list[k].score));
        }
    }
    lemma_first_ids(list, c);
    let ids = first_ids(list, c);
    assert forall|v: int| ids.contains(v) implies good.contains(v) by {
        let k = choose|k: int| 0 <= k < c && (#[trigger] list[k]).id == v;
        lemma_best_parts(scores, k);
    }
    vstd::set_lib::lemma_len_subset(ids, good);
    if c < VS_K {
        assert forall|v: int| good.contains(v) implies ids.contains(v) by {
            nothing_better_is_left_out(scores, v);
            lemma_best_parts(scores, VS_K - 1);
            assert(!is_match(list[VS_K - 1]));
            assert(list.contains(entry(scores, v)));
            let k = choose|k: int| 0 <= k < list.len() && list[k] == entry(scores, v);
            assert(list[k].id == v);
            assert(is_match(list[k]));
            assert(k < c);
        }
        vstd::set_lib::lemma_len_subset(good, ids);
    }
    lemma_best_parts(scores, i);
}

} // verus!
