//! Ranking of stored records by their similarity to a query.

use vstd::prelude::*;
use crate::similarity::{Similarity, outranks, ranks_before};
use crate::store::{EntityView, FormattedVectorEntity, VectorStore};

verus! {

/// Whether position `j` occurs in `order`.
pub open spec fn lists(order: Seq<usize>, j: int) -> bool {
    exists|a: int| 0 <= a < order.len() && #[trigger] order[a] == j
}

/// `order` lists every position of `scores` exactly once, best first.
pub open spec fn is_ranking(scores: Seq<Similarity>, order: Seq<usize>) -> bool {
    &&& order.len() == scores.len()
    &&& forall|a: int| 0 <= a < order.len() ==> (#[trigger] order[a]) < scores.len()
    &&& forall|a: int, b: int|
        0 <= a < b < order.len() ==> outranks(
            scores,
            #[trigger] order[a] as int,
            #[trigger] order[b] as int,
        )
    &&& forall|j: int| 0 <= j < scores.len() ==> #[trigger] lists(order, j)
}

/// Ranks all positions of `scores`: descending by score, undefined scores
/// last, equal scores in the order in which they were given.
pub fn rank_all(scores: &Vec<Similarity>) -> (order: Vec<usize>)
    ensures
        is_ranking(scores@, order@),
{
    let n: usize = scores.len();
    let mut order: Vec<usize> = Vec::new();
    let ghost mut place: Seq<int> = Seq::empty();
    let mut i: usize = 0;
    while i < n
        invariant
            n == scores.len(),
            i <= n,
            order.len() == i,
            place.len() == i,
            forall|a: int| 0 <= a < i ==> (#[trigger] order[a]) < i,
            forall|a: int, b: int|
                0 <= a < b < i ==> outranks(
                    scores@,
                    #[trigger] order[a] as int,
                    #[trigger] order[b] as int,
                ),
            forall|j: int| 0 <= j < i ==> 0 <= #[trigger] place[j] < i && order[place[j]] == j,
        decreases n - i,
    {
        order.push(i);
        proof {
            place = place.push(i as int);
        }
        let mut p: usize = i;
        while p > 0 && ranks_before(scores, i, order[p - 1])
            invariant
                n == scores.len(),
                i < n,
                p <= i,
                order.len() == i + 1,
                place.len() == i + 1,
                order[p as int] == i,
                forall|a: int| 0 <= a <= i && a != p ==> (#[trigger] order[a]) < i,
                forall|a: int, b: int|
                    0 <= a < b <= i && a != p && b != p ==> outranks(
                        scores@,
                        #[trigger] order[a] as int,
                        #[trigger] order[b] as int,
                    ),
                forall|b: int|
                    p < b <= i ==> outranks(scores@, i as int, #[trigger] order[b] as int),
                forall|j: int|
                    0 <= j <= i ==> 0 <= #[trigger] place[j] <= i && order[place[j]] == j,
            decreases p,
        {
            let prev: usize = order[p - 1];
            order.set(p, prev);
            order.set(p - 1, i);
            proof {
                place = place.update(prev as int, p as int).update(i as int, p - 1);
            }
            p -= 1;
        }
        proof {
            assert forall|a: int, b: int| 0 <= a < b < i + 1 implies outranks(
                scores@,
                #[trigger] order[a] as int,
                #[trigger] order[b] as int,
            ) by {
                if b == p && p > 0 {
                    assert(order[p - 1] < i);
                    assert(outranks(scores@, order[p - 1] as int, i as int));
                    if a < p - 1 {
                        assert(outranks(scores@, order[a] as int, order[p - 1] as int));
                    }
                }
            }
        }
        i += 1;
    }
    proof {
        assert forall|j: int| 0 <= j < scores.len() implies #[trigger] lists(order@, j) by {
            assert(order[place[j]] == j);
        }
    }
    order
}

/// How many matches a retrieval asks for when the caller names no number.
pub const DEFAULT_TOP_K: usize = 5;

/// One retrieved record: its position in the store, a copy of it, and its
/// similarity to the query.
#[derive(Clone, Debug)]
pub struct RankedMatch {
    pub index: usize,
    pub record: FormattedVectorEntity,
    pub score: Similarity,
}

/// Why a retrieval was refused.
#[derive(Clone, Copy, Debug, PartialEq, Eq, Structural)]
pub enum RankError {
    /// The query has `found` components, the stored vectors `expected`.
    ShapeMismatch { expected: usize, found: usize },
    /// `found` scores were given for a store of `expected` records.
    ScoreCount { expected: usize, found: usize },
}

/// Whether the record at position `j` is among `matches`.
pub open spec fn picks(matches: Seq<RankedMatch>, j: int) -> bool {
    exists|a: int| 0 <= a < matches.len() && (#[trigger] matches[a]).index == j
}

/// The smaller of the number asked for and the number there is.
pub open spec fn match_count(k: nat, available: nat) -> nat {
    if k < available {
        k
    } else {
        available
    }
}

/// `matches` are the `k` best records of `store` under `scores`, best first:
/// each is a record of the store with its own score, each ranks before the
/// next, and every record left out ranks after every one taken.
pub open spec fn is_top_k(
    store: Seq<EntityView>,
    scores: Seq<Similarity>,
    k: nat,
    matches: Seq<RankedMatch>,
) -> bool {
    &&& matches.len() == match_count(k, scores.len())
    &&& forall|a: int|
        0 <= a < matches.len() ==> {
            &&& (#[trigger] matches[a]).index < scores.len()
            &&& matches[a].score == scores[matches[a].index as int]
            &&& matches[a].record@ == store[matches[a].index as int]
        }
    &&& forall|a: int, b: int|
        0 <= a < b < matches.len() ==> outranks(
            scores,
            (#[trigger] matches[a]).index as int,
            (#[trigger] matches[b]).index as int,
        )
    &&& forall|a: int, j: int|
        0 <= a < matches.len() && 0 <= j < scores.len() && !#[trigger] picks(matches, j)
            ==> outranks(scores, (#[trigger] matches[a]).index as int, j)
}

/// Every stored vector has `dimension` components. An empty store fits any
/// dimension.
pub open spec fn shape_fits(store: Seq<EntityView>, dimension: nat) -> bool {
    forall|i: int| 0 <= i < store.len() ==> (#[trigger] store[i]).vector.len() == dimension
}

/// Refuses a query whose dimension is not that of the stored vectors.
pub fn check_shape(store: &VectorStore, dimension: usize) -> (res: Result<(), RankError>)
    ensures
        match res {
            Ok(_) => shape_fits(store@, dimension as nat),
            Err(RankError::ShapeMismatch { expected, found }) => {
                &&& store@.len() > 0
                &&& store@[0].vector.len() != dimension
                &&& expected == store@[0].vector.len()
                &&& found == dimension
            },
            Err(RankError::ScoreCount { .. }) => false,
        },
{
    match store.dimension() {
        None => Ok(()),
        Some(expected) => {
            if expected == dimension {
                Ok(())
            } else {
                Err(RankError::ShapeMismatch { expected, found: dimension })
            }
        },
    }
}

/// The `top_k` records that `scores` rank highest, best first, where
/// `scores[i]` is the similarity of the query to the record at position `i`.
pub fn find_closest_match(store: &VectorStore, scores: &Vec<Similarity>, top_k: usize) -> (res:
    Result<Vec<RankedMatch>, RankError>)
    ensures
        match res {
            Ok(matches) => scores@.len() == store@.len() && is_top_k(
                store@,
                scores@,
                top_k as nat,
                matches@,
            ),
            Err(RankError::ScoreCount { expected, found }) => {
                &&& scores@.len() != store@.len()
                &&& expected == store@.len()
                &&& found == scores@.len()
            },
            Err(RankError::ShapeMismatch { .. }) => false,
        },
{
    let n: usize = scores.len();
    if n != store.len() {
        return Err(RankError::ScoreCount { expected: store.len(), found: n });
    }
    let records: &Vec<FormattedVectorEntity> = store.all();
    let order: Vec<usize> = rank_all(scores);
    let count: usize = if top_k < n {
        top_k
    } else {
        n
    };
    let mut matches: Vec<RankedMatch> = Vec::new();
    let mut a: usize = 0;
    while a < count
        invariant
            n == scores@.len(),
            n == records@.len(),
            crate::store::entity_views(records@) == store@,
            is_ranking(scores@, order@),
            count <= n,
            a <= count,
            matches@.len() == a,
            forall|b: int|
                0 <= b < a ==> {
                    &&& (#[trigger] matches@[b]).index == order@[b]
                    &&& matches@[b].score == scores@[order@[b] as int]
                    &&& matches@[b].record@ == store@[order@[b] as int]
                },
        decreases count - a,
    {
        let index: usize = order[a];
        let record: FormattedVectorEntity = records[index].duplicate();
        proof {
            assert(store@[index as int] == records@[index as int]@);
        }
        matches.push(RankedMatch { index, record, score: scores[index] });
        a += 1;
    }
    proof {
        assert forall|a: int, j: int|
            0 <= a < matches@.len() && 0 <= j < scores@.len() && !#[trigger] picks(
                matches@,
                j,
            ) implies outranks(scores@, (#[trigger] matches@[a]).index as int, j) by {
            assert(lists(order@, j));
            let p = choose|p: int| 0 <= p < order@.len() && #[trigger] order@[p] == j;
            if p < count {
                assert(matches@[p].index == j);
            }
        }
    }
    Ok(matches)
}

/// Retrieval for a query of `dimension` components: refuses a query of the
/// wrong dimension, and otherwise returns the `k` best records.
pub fn top_k(store: &VectorStore, dimension: usize, scores: &Vec<Similarity>, k: usize) -> (res:
    Result<Vec<RankedMatch>, RankError>)
    ensures
        match res {
            Ok(matches) => {
                &&& shape_fits(store@, dimension as nat)
                &&& scores@.len() == store@.len()
                &&& is_top_k(store@, scores@, k as nat, matches@)
            },
            Err(RankError::ShapeMismatch { expected, found }) => {
                &&& !shape_fits(store@, dimension as nat)
                &&& expected == store@[0].vector.len()
                &&& found == dimension
            },
            Err(RankError::ScoreCount { expected, found }) => {
                &&& shape_fits(store@, dimension as nat)
                &&& scores@.len() != store@.len()
                &&& expected == store@.len()
                &&& found == scores@.len()
            },
        },
{
    match check_shape(store, dimension) {
        Err(e) => Err(e),
        Ok(_) => find_closest_match(store, scores, k),
    }
}

/// Retrieval of the `DEFAULT_TOP_K` best records.
pub fn find_relevant_documents(store: &VectorStore, dimension: usize, scores: &Vec<Similarity>) -> (res:
    Result<Vec<RankedMatch>, RankError>)
    ensures
        match res {
            Ok(matches) => {
                &&& shape_fits(store@, dimension as nat)
                &&& scores@.len() == store@.len()
                &&& is_top_k(store@, scores@, DEFAULT_TOP_K as nat, matches@)
            },
            Err(RankError::ShapeMismatch { expected, found }) => {
                &&& !shape_fits(store@, dimension as nat)
                &&& expected == store@[0].vector.len()
                &&& found == dimension
            },
            Err(RankError::ScoreCount { expected, found }) => {
                &&& shape_fits(store@, dimension as nat)
                &&& scores@.len() != store@.len()
                &&& expected == store@.len()
                &&& found == scores@.len()
            },
        },
{
    top_k(store, dimension, scores, DEFAULT_TOP_K)
}

/// A ranked result never lists a lower score before a higher one.
pub proof fn lemma_scores_descend(
    store: Seq<EntityView>,
    scores: Seq<Similarity>,
    k: nat,
    matches: Seq<RankedMatch>,
)
    requires
        is_top_k(store, scores, k, matches),
    ensures
        forall|a: int, b: int|
            0 <= a < b < matches.len() ==> (#[trigger] matches[a]).score.rank_key()
                >= (#[trigger] matches[b]).score.rank_key(),
{
    assert forall|a: int, b: int| 0 <= a < b < matches.len() implies (#[trigger] matches[a]).score.rank_key()
        >= (#[trigger] matches[b]).score.rank_key() by {
        assert(outranks(scores, matches[a].index as int, matches[b].index as int));
    }
}

/// A record whose score is strictly above every other score is the first
/// match, wherever it stands in the store.
pub proof fn lemma_best_ranks_first(
    store: Seq<EntityView>,
    scores: Seq<Similarity>,
    k: nat,
    matches: Seq<RankedMatch>,
    best: int,
)
    requires
        is_top_k(store, scores, k, matches),
        k > 0,
        0 <= best < scores.len(),
        forall|j: int|
            0 <= j < scores.len() && j != best ==> scores[best].rank_key() > (
            #[trigger] scores[j]).rank_key(),
    ensures
        matches.len() > 0,
        matches[0].index == best,
{
    let first = matches[0].index as int;
    if first != best {
        assert(scores[best].rank_key() > scores[first].rank_key());
        if picks(matches, best) {
            let a = choose|a: int| 0 <= a < matches.len() && (#[trigger] matches[a]).index == best;
            assert(outranks(scores, matches[0].index as int, matches[a].index as int));
        } else {
            assert(outranks(scores, matches[0].index as int, best));
        }
    }
}

/// Undefined scores rank last: after the first undefined match all matches
/// are undefined, and no record with a defined score is left out while a
/// record with an undefined one is taken.
pub proof fn lemma_undefined_rank_last(
    store: Seq<EntityView>,
    scores: Seq<Similarity>,
    k: nat,
    matches: Seq<RankedMatch>,
)
    requires
        is_top_k(store, scores, k, matches),
    ensures
        forall|a: int, b: int|
            0 <= a < b < matches.len() && (#[trigger] matches[a]).score.is_undefined() ==> (
            #[trigger] matches[b]).score.is_undefined(),
        forall|a: int, j: int|
            0 <= a < matches.len() && 0 <= j < scores.len() && (
            #[trigger] matches[a]).score.is_undefined() && !scores[j].is_undefined()
                ==> #[trigger] picks(matches, j),
{
    assert forall|a: int, b: int|
        0 <= a < b < matches.len() && (#[trigger] matches[a]).score.is_undefined() implies (
    #[trigger] matches[b]).score.is_undefined() by {
        assert(outranks(scores, matches[a].index as int, matches[b].index as int));
    }
    assert forall|a: int, j: int|
        0 <= a < matches.len() && 0 <= j < scores.len() && (
        #[trigger] matches[a]).score.is_undefined() && !scores[j].is_undefined() implies #[trigger] picks(
        matches,
        j,
    ) by {
        if !picks(matches, j) {
            assert(outranks(scores, matches[a].index as int, j));
        }
    }
}

/// The ranked result is determined by the store, the scores and `k`: two
/// results that meet the contract agree in every position.
pub proof fn lemma_top_k_unique(
    store: Seq<EntityView>,
    scores: Seq<Similarity>,
    k: nat,
    first: Seq<RankedMatch>,
    second: Seq<RankedMatch>,
)
    requires
        is_top_k(store, scores, k, first),
        is_top_k(store, scores, k, second),
    ensures
        first.len() == second.len(),
        forall|a: int|
            0 <= a < first.len() ==> {
                &&& (#[trigger] first[a]).index == second[a].index
                &&& first[a].score == second[a].score
                &&& first[a].record@ == second[a].record@
            },
{
    assert forall|a: int| 0 <= a < first.len() implies (#[trigger] first[a]).index
        == second[a].index by {
        lemma_same_position(store, scores, k, first, second, a);
    }
}

/// Two results that meet the contract hold the same record at position `a`.
proof fn lemma_same_position(
    store: Seq<EntityView>,
    scores: Seq<Similarity>,
    k: nat,
    first: Seq<RankedMatch>,
    second: Seq<RankedMatch>,
    a: int,
)
    requires
        is_top_k(store, scores, k, first),
        is_top_k(store, scores, k, second),
        0 <= a < first.len(),
    ensures
        first[a].index == second[a].index,
    decreases a, 1int,
{
    lemma_not_ranked_earlier(store, scores, k, first, second, a);
    lemma_not_ranked_earlier(store, scores, k, second, first, a);
}

/// The record that `first` holds at `a` does not rank before the one that
/// `second` holds there.
proof fn lemma_not_ranked_earlier(
    store: Seq<EntityView>,
    scores: Seq<Similarity>,
    k: nat,
    first: Seq<RankedMatch>,
    second: Seq<RankedMatch>,
    a: int,
)
    requires
        is_top_k(store, scores, k, first),
        is_top_k(store, scores, k, second),
        0 <= a < first.len(),
    ensures
        !outranks(scores, first[a].index as int, second[a].index as int),
    decreases a, 0int,
{
    let x = first[a].index as int;
    if !outranks(scores, x, second[a].index as int) {
    } else if picks(second, x) {
        let c = choose|c: int| 0 <= c < second.len() && (#[trigger] second[c]).index == x;
        if c < a {
            lemma_same_position(store, scores, k, first, second, c);
            assert(outranks(scores, first[c].index as int, first[a].index as int));
        } else if c > a {
            assert(outranks(scores, second[a].index as int, second[c].index as int));
        }
    } else {
        assert(outranks(scores, second[a].index as int, x));
    }
}

} // verus!
