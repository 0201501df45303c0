//! The rule by which a search keeps one result over another: the first to exceed the one before.
use vstd::prelude::*;
use crate::double::{exceeds, Double};

verus! {

/// The position a search over these scores settles on: it moves to a score only where that score
/// exceeds the one it stands at.
pub open spec fn leader(scores: Seq<Double>) -> int
    decreases scores.len(),
{
    if scores.len() <= 1 {
        0
    } else {
        let held = leader(scores.drop_last());
        if exceeds(scores.last(), scores[held]) {
            scores.len() - 1
        } else {
            held
        }
    }
}

pub proof fn lemma_leader_in_range(scores: Seq<Double>)
    requires
        scores.len() > 0,
    ensures
        0 <= leader(scores) < scores.len(),
    decreases scores.len(),
{
    if scores.len() > 1 {
        lemma_leader_in_range(scores.drop_last());
    }
}

/// No score exceeds the leader's, and every earlier score that is a number falls below it where
/// the first score is a number too. So a later tie never displaces an earlier leader.
pub proof fn law_the_leader_is_the_first_highest(scores: Seq<Double>, i: int)
    requires
        0 <= i < scores.len(),
    ensures
        0 <= leader(scores) < scores.len(),
        !exceeds(scores[i], scores[leader(scores)]),
        i < leader(scores) && !crate::double::is_nan(scores[0]) && !crate::double::is_nan(scores[i])
            ==> exceeds(scores[leader(scores)], scores[i]),
        !crate::double::is_nan(scores[0]) ==> !crate::double::is_nan(scores[leader(scores)]),
    decreases scores.len(),
{
    lemma_leader_in_range(scores);
    if scores.len() > 1 {
        let before = scores.drop_last();
        lemma_leader_in_range(before);
        law_the_leader_is_the_first_highest(before, leader(before));
        if i < before.len() {
            law_the_leader_is_the_first_highest(before, i);
        }
    }
}

} // verus!
