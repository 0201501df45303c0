//! Putting results in descending order of score, ties in the order they came.
use vstd::prelude::*;
use crate::double::{is_nan, rank, total_rank, Double};
use crate::optimize::draw::is_sample;

verus! {

/// By what scores are put in order.
#[derive(Clone, Copy, Debug, PartialEq, Eq, Structural)]
pub enum By {
    /// As numbers, the two zeros being one.
    Number,
    /// By the total order over all bit patterns.
    Total,
}

impl By {
    pub open spec fn key(self, score: Double) -> int {
        match self {
            By::Number => rank(score),
            By::Total => total_rank(score),
        }
    }

    fn above(self, a: Double, b: Double) -> (r: bool)
        requires
            self == By::Number ==> !is_nan(a) && !is_nan(b),
        ensures
            r == (self.key(a) > self.key(b)),
    {
        match self {
            By::Number => a.exceeds(b),
            By::Total => a.above(b),
        }
    }
}

/// Whether `order` lists every position once, higher scores before lower and equal ones in the
/// order they came.
pub open spec fn is_ranking(by: By, scores: Seq<Double>, order: Seq<usize>) -> bool {
    &&& is_sample(order, scores.len(), scores.len())
    &&& descends(by, scores, order)
}

/// Whether the positions in `order` go from higher scores to lower, equal ones as they came.
pub open spec fn descends(by: By, scores: Seq<Double>, order: Seq<usize>) -> bool {
    forall|i: int, j: int|
        0 <= i < j < order.len() ==> {
            let a = by.key(scores[#[trigger] order[i] as int]);
            let b = by.key(scores[#[trigger] order[j] as int]);
            a > b || (a == b && order[i] < order[j])
        }
}

/// The one ranking of these scores.
pub open spec fn ranked(by: By, scores: Seq<Double>) -> Seq<usize> {
    choose|order: Seq<usize>| is_ranking(by, scores, order)
}

/// The positions of the scores, in descending order of score.
pub fn ranking(by: By, scores: &Vec<Double>) -> (r: Vec<usize>)
    requires
        by == By::Number ==> forall|i: int| 0 <= i < scores@.len() ==> !is_nan(#[trigger] scores@[i]),
    ensures
        is_ranking(by, scores@, r@),
        r@ == ranked(by, scores@),
{
    let mut order: Vec<usize> = Vec::new();
    let mut next: usize = 0;
    while next < scores.len()
        invariant
            next <= scores@.len(),
            by == By::Number ==> forall|i: int|
                0 <= i < scores@.len() ==> !is_nan(#[trigger] scores@[i]),
            is_sample(order@, next as nat, next as nat),
            descends(by, scores@, order@),
        decreases scores@.len() - next,
    {
        let mut at: usize = 0;
        while at < order.len() && !by.above(scores[next], scores[order[at]])
            invariant
                at <= order@.len(),
                next < scores@.len(),
                by == By::Number ==> forall|i: int|
                    0 <= i < scores@.len() ==> !is_nan(#[trigger] scores@[i]),
                is_sample(order@, next as nat, next as nat),
                forall|i: int|
                    0 <= i < at ==> by.key(scores@[#[trigger] order@[i] as int]) >= by.key(
                        scores@[next as int],
                    ),
            decreases order@.len() - at,
        {
            at = at + 1;
        }
        let ghost before = order@;
        order.insert(at, next);
        proof {
            assert forall|i: int, j: int| 0 <= i < j < order@.len() implies {
                let a = by.key(scores@[#[trigger] order@[i] as int]);
                let b = by.key(scores@[#[trigger] order@[j] as int]);
                (a > b || (a == b && order@[i] < order@[j])) && order@[i] != order@[j]
            } by {
                let oi = if i < at {
                    before[i] as int
                } else if i == at {
                    next as int
                } else {
                    before[i - 1] as int
                };
                let oj = if j < at {
                    before[j] as int
                } else if j == at {
                    next as int
                } else {
                    before[j - 1] as int
                };
                assert(order@[i] == oi && order@[j] == oj);
                if i == at {
                    let first = before[at as int];
                    assert(by.key(scores@[next as int]) > by.key(scores@[first as int]));
                    if j - 1 > at {
                        assert(before[j - 1] == oj);
                    }
                }
            }
            assert forall|i: int| 0 <= i < order@.len() implies (#[trigger] order@[i]) < next + 1 by {
                if i < at {
                    assert(order@[i] == before[i]);
                } else if i > at {
                    assert(order@[i] == before[i - 1]);
                }
            }
        }
        next = next + 1;
    }
    proof {
        law_a_ranking_is_unique(by, scores@, order@, ranked(by, scores@));
    }
    order
}

/// Where a new score of this key goes in an order: after every one that is as high.
proof fn lemma_cut(by: By, scores: Seq<Double>, order: Seq<usize>, key: int) -> (at: int)
    requires
        descends(by, scores, order),
    ensures
        0 <= at <= order.len(),
        forall|i: int| 0 <= i < at ==> by.key(scores[#[trigger] order[i] as int]) >= key,
        forall|i: int|
            at <= i < order.len() ==> by.key(scores[#[trigger] order[i] as int]) < key,
    decreases order.len(),
{
    if order.len() == 0 {
        0
    } else {
        let last = order.len() - 1;
        let before = order.drop_last();
        assert forall|i: int, j: int| 0 <= i < j < before.len() implies {
            let a = by.key(scores[#[trigger] before[i] as int]);
            let b = by.key(scores[#[trigger] before[j] as int]);
            a > b || (a == b && before[i] < before[j])
        } by {
            assert(before[i] == order[i] && before[j] == order[j]);
        }
        if by.key(scores[order[last] as int]) >= key {
            assert forall|i: int| 0 <= i < order.len() implies by.key(
                scores[#[trigger] order[i] as int],
            ) >= key by {
                if i < last {
                    assert(by.key(scores[order[i] as int]) >= by.key(scores[order[last] as int]));
                }
            }
            order.len() as int
        } else {
            let at = lemma_cut(by, scores, before, key);
            assert forall|i: int| 0 <= i < at implies by.key(scores[#[trigger] order[i] as int])
                >= key by {
                assert(before[i] == order[i]);
            }
            assert forall|i: int| at <= i < order.len() implies by.key(
                scores[#[trigger] order[i] as int],
            ) < key by {
                if i < last {
                    assert(before[i] == order[i]);
                }
            }
            at
        }
    }
}

/// Every list of scores has a ranking.
pub proof fn lemma_ranked(by: By, scores: Seq<Double>)
    requires
        scores.len() <= usize::MAX,
    ensures
        is_ranking(by, scores, ranked(by, scores)),
{
    let order = lemma_a_ranking_exists(by, scores);
    assert(is_ranking(by, scores, order));
}

proof fn lemma_a_ranking_exists(by: By, scores: Seq<Double>) -> (order: Seq<usize>)
    requires
        scores.len() <= usize::MAX,
    ensures
        is_ranking(by, scores, order),
    decreases scores.len(),
{
    if scores.len() == 0 {
        Seq::empty()
    } else {
        let earlier = scores.drop_last();
        let before = lemma_a_ranking_exists(by, earlier);
        let next = (scores.len() - 1) as usize;
        let key = by.key(scores[next as int]);
        assert forall|i: int, j: int| 0 <= i < j < before.len() implies {
            let a = by.key(scores[#[trigger] before[i] as int]);
            let b = by.key(scores[#[trigger] before[j] as int]);
            a > b || (a == b && before[i] < before[j])
        } by {
            assert(before[i] < earlier.len() && before[j] < earlier.len());
            assert(scores[before[i] as int] == earlier[before[i] as int]);
            assert(scores[before[j] as int] == earlier[before[j] as int]);
        }
        let at = lemma_cut(by, scores, before, key);
        let order = before.insert(at, next);
        assert forall|i: int, j: int| 0 <= i < j < order.len() implies {
            let a = by.key(scores[#[trigger] order[i] as int]);
            let b = by.key(scores[#[trigger] order[j] as int]);
            (a > b || (a == b && order[i] < order[j])) && order[i] != order[j]
        } by {
            if i < at {
                assert(order[i] == before[i]);
            } else if i > at {
                assert(order[i] == before[i - 1]);
            }
            if j < at {
                assert(order[j] == before[j]);
            } else if j > at {
                assert(order[j] == before[j - 1]);
            }
        }
        assert forall|i: int| 0 <= i < order.len() implies (#[trigger] order[i]) < scores.len() by {
            if i < at {
                assert(order[i] == before[i]);
            } else if i > at {
                assert(order[i] == before[i - 1]);
            }
        }
        order
    }
}

/// Only one order is a ranking: two rankings of the same scores are the same.
pub proof fn law_a_ranking_is_unique(by: By, scores: Seq<Double>, a: Seq<usize>, b: Seq<usize>)
    requires
        is_ranking(by, scores, a),
        is_ranking(by, scores, b),
    ensures
        a == b,
{
    lemma_rankings_agree(by, scores, a, b, scores.len());
    assert(a.take(scores.len() as int) =~= a);
    assert(b.take(scores.len() as int) =~= b);
}

proof fn lemma_rankings_agree(
    by: By,
    scores: Seq<Double>,
    a: Seq<usize>,
    b: Seq<usize>,
    n: nat,
)
    requires
        is_ranking(by, scores, a),
        is_ranking(by, scores, b),
        n <= scores.len(),
    ensures
        a.take(n as int) == b.take(n as int),
    decreases n,
{
    if n > 0 {
        let k = n - 1;
        lemma_rankings_agree(by, scores, a, b, k as nat);
        assert(a.take(k) == b.take(k));
        lemma_every_position_is_listed(by, scores, a, b[k] as int);
        lemma_every_position_is_listed(by, scores, b, a[k] as int);
        let i = choose|i: int| 0 <= i < a.len() && a[i] == b[k];
        let j = choose|j: int| 0 <= j < b.len() && b[j] == a[k];
        if i < k {
            assert(a.take(k)[i] == b.take(k)[i]);
            assert(b[i] == b[k]);
        }
        if j < k {
            assert(a.take(k)[j] == b.take(k)[j]);
            assert(a[j] == a[k]);
        }
        assert(a[k] == b[k]);
        assert(a.take(n as int) =~= a.take(k).push(a[k]));
        assert(b.take(n as int) =~= b.take(k).push(b[k]));
    }
}

pub proof fn lemma_every_position_is_listed(by: By, scores: Seq<Double>, order: Seq<usize>, p: int)
    requires
        is_ranking(by, scores, order),
        0 <= p < scores.len(),
    ensures
        exists|i: int| 0 <= i < order.len() && order[i] == p,
{
    if !(exists|i: int| 0 <= i < order.len() && order[i] == p) {
        let bound = scores.len();
        let all = Set::new(|x: int| 0 <= x < bound);
        vstd::set_lib::lemma_int_range(0, bound as int);
        assert(vstd::set_lib::set_int_range(0, bound as int) =~= all);
        let values = order.map_values(|x: usize| x as int);
        let listed = values.to_set();
        assert(values.no_duplicates());
        values.unique_seq_to_set();
        assert(listed.len() == bound);
        let fewer = all.remove(p);
        assert forall|x: int| listed.contains(x) implies fewer.contains(x) by {
            let i = choose|i: int| 0 <= i < values.len() && values[i] == x;
            assert(order[i] == x);
        }
        vstd::set_lib::lemma_len_subset(listed, fewer);
    }
}

/// A ranking lists every score once: each before all lower ones, and before equal ones that came
/// later.
pub proof fn law_higher_scores_come_first(by: By, scores: Seq<Double>, p: int, q: int)
    requires
        scores.len() <= usize::MAX,
        by == By::Number ==> forall|i: int| 0 <= i < scores.len() ==> !is_nan(#[trigger] scores[i]),
        0 <= p < q < scores.len(),
    ensures
        ({
            let order = ranked(by, scores);
            let (high, low) = (scores[order[p] as int], scores[order[q] as int]);
            &&& order.len() == scores.len()
            &&& 0 <= order[p] < scores.len() && 0 <= order[q] < scores.len()
            &&& order[p] != order[q]
            &&& by == By::Number ==> !crate::double::exceeds(low, high)
            &&& by == By::Number && !crate::double::exceeds(high, low) ==> order[p] < order[q]
            &&& by == By::Total ==> total_rank(high) >= total_rank(low)
            &&& by == By::Total && total_rank(high) == total_rank(low) ==> order[p] < order[q]
        }),
{
    lemma_ranked(by, scores);
    let order = ranked(by, scores);
    assert(order[p] < scores.len() && order[q] < scores.len());
}

} // verus!
