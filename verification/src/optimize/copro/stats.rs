//! What a coordinate ascent records of itself: the scores each predictor saw, round by round.
use vstd::prelude::*;
use crate::double::{exceeds, is_nan, rank, reaches, Double};
use crate::duplicate::append;
use crate::optimize::draw::least;
use crate::optimize::ranking::{is_ranking, ranked, ranking, By};

verus! {

/// The scores of one round, which a summary of it is taken over.
#[derive(Debug)]
pub struct DepthScores {
    /// Which round these came from, counting from zero.
    pub depth: usize,
    pub scores: Vec<Double>,
}

/// What a [`DepthScores`] holds.
#[verifier::ext_equal]
pub struct DepthScoresModel {
    pub depth: usize,
    pub scores: Seq<Double>,
}

impl DeepView for DepthScores {
    type V = DepthScoresModel;

    open spec fn deep_view(&self) -> DepthScoresModel {
        DepthScoresModel { depth: self.depth, scores: self.scores@ }
    }
}

impl DepthScores {
    /// One round's scores, or nothing where there were none.
    pub fn of(depth: usize, scores: Vec<Double>) -> (r: Option<DepthScores>)
        ensures
            match r {
                Some(kept) => scores@.len() > 0 && kept.deep_view() == (DepthScoresModel {
                    depth,
                    scores: scores@,
                }),
                None => scores@.len() == 0,
            },
    {
        if scores.len() == 0 {
            None
        } else {
            Some(DepthScores { depth, scores })
        }
    }
}

/// The largest of these scores, the earliest of equals; what is no number is passed over, and where
/// there is nothing else it is the infinity below every number.
pub open spec fn highest(scores: Seq<Double>) -> Double
    decreases scores.len(),
{
    if scores.len() == 0 {
        Double { bits: 0xfff0_0000_0000_0000 }
    } else {
        let before = highest(scores.drop_last());
        if exceeds(scores.last(), before) {
            scores.last()
        } else {
            before
        }
    }
}

/// The smallest of these scores, the earliest of equals; what is no number is passed over, and where
/// there is nothing else it is the infinity above every number.
pub open spec fn lowest(scores: Seq<Double>) -> Double
    decreases scores.len(),
{
    if scores.len() == 0 {
        Double { bits: 0x7ff0_0000_0000_0000 }
    } else {
        let before = lowest(scores.drop_last());
        if exceeds(before, scores.last()) {
            scores.last()
        } else {
            before
        }
    }
}

impl DepthScores {
    /// The round's largest score.
    pub fn max(&self) -> (r: Double)
        ensures
            r == highest(self.scores@),
    {
        let mut r: Double = Double::from_bits(0xfff0_0000_0000_0000);
        let mut i: usize = 0;
        while i < self.scores.len()
            invariant
                i <= self.scores@.len(),
                r == highest(self.scores@.take(i as int)),
            decreases self.scores@.len() - i,
        {
            proof {
                assert(self.scores@.take(i + 1).drop_last() =~= self.scores@.take(i as int));
            }
            if self.scores[i].exceeds(r) {
                r = self.scores[i];
            }
            i = i + 1;
        }
        proof {
            assert(self.scores@.take(i as int) =~= self.scores@);
        }
        r
    }

    /// The round's smallest score.
    pub fn min(&self) -> (r: Double)
        ensures
            r == lowest(self.scores@),
    {
        let mut r: Double = Double::from_bits(0x7ff0_0000_0000_0000);
        let mut i: usize = 0;
        while i < self.scores.len()
            invariant
                i <= self.scores@.len(),
                r == lowest(self.scores@.take(i as int)),
            decreases self.scores@.len() - i,
        {
            proof {
                assert(self.scores@.take(i + 1).drop_last() =~= self.scores@.take(i as int));
            }
            if r.exceeds(self.scores[i]) {
                r = self.scores[i];
            }
            i = i + 1;
        }
        proof {
            assert(self.scores@.take(i as int) =~= self.scores@);
        }
        r
    }
}

/// Every score of a round that is a number lies between its smallest and its largest; and where
/// there is such a score, both have the rank of one.
pub proof fn law_a_rounds_scores_lie_between_its_extremes(scores: Seq<Double>, i: int)
    requires
        0 <= i < scores.len(),
        !is_nan(scores[i]),
    ensures
        reaches(highest(scores), scores[i]),
        reaches(scores[i], lowest(scores)),
        exists|k: int|
            0 <= k < scores.len() && !is_nan(#[trigger] scores[k]) && rank(scores[k]) == rank(
                highest(scores),
            ),
        exists|k: int|
            0 <= k < scores.len() && !is_nan(#[trigger] scores[k]) && rank(scores[k]) == rank(
                lowest(scores),
            ),
    decreases scores.len(),
{
    let before = scores.drop_last();
    let last = scores.len() - 1;
    lemma_extremes_are_numbers(before);
    if exists|k: int| 0 <= k < before.len() && !is_nan(#[trigger] before[k]) {
        let k = if i < last {
            i
        } else {
            choose|k: int| 0 <= k < before.len() && !is_nan(#[trigger] before[k])
        };
        law_a_rounds_scores_lie_between_its_extremes(before, k);
        let up = choose|u: int|
            0 <= u < before.len() && !is_nan(#[trigger] before[u]) && rank(before[u]) == rank(
                highest(before),
            );
        let down = choose|d: int|
            0 <= d < before.len() && !is_nan(#[trigger] before[d]) && rank(before[d]) == rank(
                lowest(before),
            );
        assert(scores[up] == before[up]);
        assert(scores[down] == before[down]);
        assert(scores[last] == scores.last());
    } else {
        if i < last {
            assert(before[i] == scores[i]);
        }
        lemma_no_number(before);
        assert(scores[last] == scores.last());
    }
}

proof fn lemma_extremes_are_numbers(scores: Seq<Double>)
    ensures
        !is_nan(highest(scores)),
        !is_nan(lowest(scores)),
    decreases scores.len(),
{
    if scores.len() > 0 {
        lemma_extremes_are_numbers(scores.drop_last());
    }
}

proof fn lemma_no_number(scores: Seq<Double>)
    requires
        forall|k: int| 0 <= k < scores.len() ==> is_nan(#[trigger] scores[k]),
    ensures
        highest(scores) == (Double { bits: 0xfff0_0000_0000_0000 }),
        lowest(scores) == (Double { bits: 0x7ff0_0000_0000_0000 }),
    decreases scores.len(),
{
    if scores.len() > 0 {
        let before = scores.drop_last();
        assert forall|k: int| 0 <= k < before.len() implies is_nan(#[trigger] before[k]) by {
            assert(before[k] == scores[k]);
        }
        lemma_no_number(before);
        assert(is_nan(scores[scores.len() - 1]));
    }
}

/// A predictor's rounds with one more, where it has any scores.
pub open spec fn with_round(
    rounds: Seq<DepthScoresModel>,
    depth: usize,
    scores: Seq<Double>,
) -> Seq<DepthScoresModel> {
    if scores.len() == 0 {
        rounds
    } else {
        rounds.push(DepthScoresModel { depth, scores })
    }
}

/// What a run recorded.
#[derive(Debug)]
pub struct CoproStats {
    /// Per predictor and round, the ten highest scores it had seen by the end of that round.
    pub best: Vec<Vec<DepthScores>>,
    /// Per predictor and round, the scores of that round's newest candidates.
    pub latest: Vec<Vec<DepthScores>>,
    /// How many candidates were scored in all.
    pub total_calls: usize,
}

/// What a [`CoproStats`] holds.
#[verifier::ext_equal]
pub struct StatsModel {
    pub best: Seq<Seq<DepthScoresModel>>,
    pub latest: Seq<Seq<DepthScoresModel>>,
    pub total_calls: usize,
}

impl DeepView for CoproStats {
    type V = StatsModel;

    open spec fn deep_view(&self) -> StatsModel {
        StatsModel {
            best: self.best.deep_view(),
            latest: self.latest.deep_view(),
            total_calls: self.total_calls,
        }
    }
}

/// Nothing recorded yet, for that many predictors.
pub open spec fn no_stats(predictors: nat) -> StatsModel {
    StatsModel {
        best: Seq::new(predictors, |i: int| Seq::empty()),
        latest: Seq::new(predictors, |i: int| Seq::empty()),
        total_calls: 0,
    }
}

/// The ten highest scores, in descending order.
pub open spec fn highest_ten(scores: Seq<Double>) -> Seq<Double> {
    Seq::new(
        least(10, scores.len()),
        |i: int| scores[ranked(By::Total, scores)[i] as int],
    )
}

fn empty_rounds(predictors: usize) -> (r: Vec<Vec<DepthScores>>)
    ensures
        r.deep_view() == Seq::new(predictors as nat, |i: int| Seq::<DepthScoresModel>::empty()),
{
    let mut r: Vec<Vec<DepthScores>> = Vec::new();
    let mut i: usize = 0;
    while i < predictors
        invariant
            i <= predictors,
            r.deep_view() =~= Seq::new(i as nat, |i: int| Seq::<DepthScoresModel>::empty()),
        decreases predictors - i,
    {
        let none: Vec<DepthScores> = Vec::new();
        proof {
            assert(none.deep_view() =~= Seq::<DepthScoresModel>::empty());
        }
        append(&mut r, none);
        i = i + 1;
    }
    r
}

/// Adds one round to one predictor's, where it has any scores.
pub fn add_round(
    rounds: &mut Vec<Vec<DepthScores>>,
    predictor: usize,
    depth: usize,
    scores: Vec<Double>,
)
    requires
        predictor < old(rounds)@.len(),
    ensures
        final(rounds).deep_view() == old(rounds).deep_view().update(
            predictor as int,
            with_round(old(rounds).deep_view()[predictor as int], depth, scores@),
        ),
{
    match DepthScores::of(depth, scores) {
        Some(kept) => {
            append(&mut rounds[predictor], kept);
        },
        None => {},
    }
    proof {
        assert(rounds.deep_view() =~= old(rounds).deep_view().update(
            predictor as int,
            with_round(old(rounds).deep_view()[predictor as int], depth, scores@),
        ));
    }
}

impl CoproStats {
    /// Nothing recorded yet, for that many predictors.
    pub fn for_predictors(predictors: usize) -> (r: CoproStats)
        ensures
            r.deep_view() == no_stats(predictors as nat),
    {
        CoproStats {
            best: empty_rounds(predictors),
            latest: empty_rounds(predictors),
            total_calls: 0,
        }
    }

    /// The ten highest scores, in descending order.
    pub fn top_ten(scores: &Vec<Double>) -> (r: Vec<Double>)
        ensures
            r@ == highest_ten(scores@),
    {
        let order = ranking(By::Total, scores);
        let mut r: Vec<Double> = Vec::new();
        while r.len() < 10 && r.len() < scores.len()
            invariant
                is_ranking(By::Total, scores@, order@),
                order@ == ranked(By::Total, scores@),
                r@.len() <= 10,
                r@.len() <= scores@.len(),
                r@ =~= highest_ten(scores@).take(r@.len() as int),
            decreases scores@.len() - r@.len(),
        {
            r.push(scores[order[r.len()]]);
        }
        proof {
            assert(highest_ten(scores@).take(r@.len() as int) =~= highest_ten(scores@));
        }
        r
    }
}

/// The ten highest scores are ten of the scores, or all where there are fewer, from the highest down,
/// and no score that is left out is higher than one of them.
pub proof fn law_the_ten_highest_are_kept(scores: Seq<Double>, order: Seq<usize>, i: int, j: int)
    requires
        is_ranking(By::Total, scores, order),
        0 <= i < 10,
        i < scores.len(),
        i <= j < scores.len(),
    ensures
        highest_ten(scores).len() == if scores.len() < 10 {
            scores.len()
        } else {
            10
        },
        highest_ten(scores)[i] == scores[order[i] as int],
        crate::double::total_rank(highest_ten(scores)[i]) >= crate::double::total_rank(
            scores[order[j] as int],
        ),
{
    crate::optimize::ranking::law_a_ranking_is_unique(
        By::Total,
        scores,
        order,
        ranked(By::Total, scores),
    );
    if i < j {
        assert(By::Total.key(scores[order[i] as int]) >= By::Total.key(scores[order[j] as int]));
    }
}

/// A round with scores is recorded behind the earlier ones with all of them, and one without is not.
pub proof fn law_a_round_with_scores_is_recorded(
    rounds: Seq<DepthScoresModel>,
    depth: usize,
    scores: Seq<Double>,
)
    ensures
        scores.len() == 0 ==> with_round(rounds, depth, scores) == rounds,
        scores.len() > 0 ==> with_round(rounds, depth, scores) == rounds.push(
            DepthScoresModel { depth, scores },
        ),
{
}

} // verus!
