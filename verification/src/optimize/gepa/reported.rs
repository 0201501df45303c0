//! What a search decided at each step, as one word a log can be searched by.
use vstd::prelude::*;

verus! {

/// What a search decided.
#[derive(Clone, Copy, Debug, PartialEq, Eq, Structural)]
pub enum Decision {
    Selected,
    Proposed,
    ProposedNothing,
    NoTextUpdates,
    NothingToLearnFrom,
    NoTrajectories,
    ReflectiveDatasetFailed,
    BatchedReflectionFailed,
    ReflectionFailed,
    Rejected,
    AcceptedOnMinibatch,
    /// Entered the pool, as its best or not.
    Accepted { is_best: bool },
    Merged,
    NoMergeCandidates,
}

impl Decision {
    /// The decision in one word.
    pub open spec fn named(self) -> Seq<char> {
        match self {
            Decision::Selected => "selected"@,
            Decision::Proposed => "proposed"@,
            Decision::ProposedNothing => "proposed_nothing"@,
            Decision::NoTextUpdates => "no_text_updates"@,
            Decision::NothingToLearnFrom => "nothing_to_learn_from"@,
            Decision::NoTrajectories => "no_trajectories"@,
            Decision::ReflectiveDatasetFailed => "reflective_dataset_failed"@,
            Decision::BatchedReflectionFailed => "batched_reflection_failed"@,
            Decision::ReflectionFailed => "reflection_failed"@,
            Decision::Rejected => "rejected"@,
            Decision::AcceptedOnMinibatch => "accepted_on_minibatch"@,
            Decision::Accepted { is_best } => if is_best {
                "accepted_best"@
            } else {
                "accepted"@
            },
            Decision::Merged => "merged"@,
            Decision::NoMergeCandidates => "no_merge_candidates"@,
        }
    }

    /// The decision in one word.
    pub fn word(&self) -> (r: &'static str)
        ensures
            r@ == self.named(),
    {
        match self {
            Decision::Selected => "selected",
            Decision::Proposed => "proposed",
            Decision::ProposedNothing => "proposed_nothing",
            Decision::NoTextUpdates => "no_text_updates",
            Decision::NothingToLearnFrom => "nothing_to_learn_from",
            Decision::NoTrajectories => "no_trajectories",
            Decision::ReflectiveDatasetFailed => "reflective_dataset_failed",
            Decision::BatchedReflectionFailed => "batched_reflection_failed",
            Decision::ReflectionFailed => "reflection_failed",
            Decision::Rejected => "rejected",
            Decision::AcceptedOnMinibatch => "accepted_on_minibatch",
            Decision::Accepted { is_best } => if *is_best {
                "accepted_best"
            } else {
                "accepted"
            },
            Decision::Merged => "merged",
            Decision::NoMergeCandidates => "no_merge_candidates",
        }
    }
}

/// No two decisions share a word.
pub proof fn law_each_decision_has_its_own_word(a: Decision, b: Decision)
    ensures
        a.named() == b.named() ==> a == b,
{
    reveal_strlit("selected");
    reveal_strlit("proposed");
    reveal_strlit("proposed_nothing");
    reveal_strlit("no_text_updates");
    reveal_strlit("nothing_to_learn_from");
    reveal_strlit("no_trajectories");
    reveal_strlit("reflective_dataset_failed");
    reveal_strlit("batched_reflection_failed");
    reveal_strlit("reflection_failed");
    reveal_strlit("rejected");
    reveal_strlit("accepted_on_minibatch");
    reveal_strlit("accepted_best");
    reveal_strlit("accepted");
    reveal_strlit("merged");
    reveal_strlit("no_merge_candidates");
    if a.named() == b.named() {
        assert(a.named().len() == b.named().len());
        assert(a.named()[0] == b.named()[0]);
        assert(a.named()[4] == b.named()[4]);
    }
}

} // verus!
