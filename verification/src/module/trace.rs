//! What a traced run records: one entry per predictor call, and what that call answered.
use vstd::prelude::*;
use crate::double::{is_zero, Double};
use crate::duplicate::Duplicate;
use crate::example::{Example, ExampleModel};
use crate::signature::{Signature, SignatureModel};

verus! {

/// A completion no adapter could read, and what that is worth.
#[derive(Debug)]
pub struct FailedPrediction {
    /// The raw text, as it arrived.
    pub completion_text: String,
    pub format_reward: Option<Double>,
}

/// What a [`FailedPrediction`] holds.
#[verifier::ext_equal]
pub struct FailureModel {
    pub completion_text: Seq<char>,
    pub format_reward: Option<Double>,
}

impl FailureModel {
    /// What the failure scores: its own reward unless that is absent or zero.
    pub open spec fn worth(self, format_failure_score: Double) -> Double {
        match self.format_reward {
            Some(reward) => if is_zero(reward) {
                format_failure_score
            } else {
                reward
            },
            None => format_failure_score,
        }
    }
}

impl DeepView for FailedPrediction {
    type V = FailureModel;

    open spec fn deep_view(&self) -> FailureModel {
        FailureModel {
            completion_text: self.completion_text@,
            format_reward: self.format_reward,
        }
    }
}

impl Duplicate for FailedPrediction {
    fn duplicate(&self) -> (r: Self) {
        FailedPrediction {
            completion_text: self.completion_text.clone(),
            format_reward: self.format_reward,
        }
    }
}

impl FailedPrediction {
    /// What the failure scores: its own reward, or the given score where the reward is absent or
    /// zero.
    pub fn score(&self, format_failure_score: Double) -> (r: Double)
        ensures
            r == self.deep_view().worth(format_failure_score),
    {
        match self.format_reward {
            Some(reward) => if reward.is_zero() {
                format_failure_score
            } else {
                reward
            },
            None => format_failure_score,
        }
    }
}

/// What a predictor answered, or the completion nobody could read.
#[derive(Debug)]
pub enum StepOutputs {
    Answered(Example),
    Unparsed(FailedPrediction),
}

/// What a [`StepOutputs`] holds.
#[verifier::ext_equal]
pub enum OutputsModel {
    Answered(ExampleModel),
    Unparsed(FailureModel),
}

impl DeepView for StepOutputs {
    type V = OutputsModel;

    open spec fn deep_view(&self) -> OutputsModel {
        match *self {
            StepOutputs::Answered(example) => OutputsModel::Answered(example.deep_view()),
            StepOutputs::Unparsed(failed) => OutputsModel::Unparsed(failed.deep_view()),
        }
    }
}

impl Duplicate for StepOutputs {
    fn duplicate(&self) -> (r: Self) {
        match self {
            StepOutputs::Answered(example) => StepOutputs::Answered(example.duplicate()),
            StepOutputs::Unparsed(failed) => StepOutputs::Unparsed(failed.duplicate()),
        }
    }
}

impl StepOutputs {
    /// The parsed fields, or nothing for a completion that would not parse.
    pub fn answered(&self) -> (r: Option<&Example>)
        ensures
            match r {
                Some(example) => self.deep_view() == OutputsModel::Answered(example.deep_view()),
                None => self.deep_view() is Unparsed,
            },
    {
        match self {
            StepOutputs::Answered(example) => Some(example),
            StepOutputs::Unparsed(_) => None,
        }
    }

    /// The failure, or nothing for a completion that parsed.
    pub fn failure(&self) -> (r: Option<&FailedPrediction>)
        ensures
            match r {
                Some(failed) => self.deep_view() == OutputsModel::Unparsed(failed.deep_view()),
                None => self.deep_view() is Answered,
            },
    {
        match self {
            StepOutputs::Unparsed(failed) => Some(failed),
            StepOutputs::Answered(_) => None,
        }
    }
}

/// One predictor call: which predictor ran, what it was asked, what it answered, and its signature
/// as it stood for the call.
#[derive(Debug)]
pub struct TraceStep {
    pub predictor: String,
    pub inputs: Example,
    pub outputs: StepOutputs,
    pub signature: Signature,
}

/// What a [`TraceStep`] holds.
#[verifier::ext_equal]
pub struct StepModel {
    pub predictor: Seq<char>,
    pub inputs: ExampleModel,
    pub outputs: OutputsModel,
    pub signature: SignatureModel,
}

impl DeepView for TraceStep {
    type V = StepModel;

    open spec fn deep_view(&self) -> StepModel {
        StepModel {
            predictor: self.predictor@,
            inputs: self.inputs.deep_view(),
            outputs: self.outputs.deep_view(),
            signature: self.signature.deep_view(),
        }
    }
}

impl Duplicate for TraceStep {
    fn duplicate(&self) -> (r: Self) {
        TraceStep {
            predictor: self.predictor.clone(),
            inputs: self.inputs.duplicate(),
            outputs: self.outputs.duplicate(),
            signature: self.signature.duplicate(),
        }
    }
}

/// The trace with every step from `from` on under `name`.
pub open spec fn relabelled(trace: Seq<StepModel>, from: int, name: Seq<char>) -> Seq<StepModel> {
    Seq::new(
        trace.len(),
        |i: int|
            if i < from {
                trace[i]
            } else {
                StepModel { predictor: name, ..trace[i] }
            },
    )
}

/// Renames every step from `from` on, which is how a composed module claims its children's calls
/// as its own predictor.
pub fn relabel(trace: &mut Vec<TraceStep>, from: usize, name: &str)
    requires
        from <= old(trace)@.len(),
    ensures
        final(trace).deep_view() == relabelled(old(trace).deep_view(), from as int, name@),
{
    let mut i: usize = from;
    while i < trace.len()
        invariant
            from <= i <= trace.deep_view().len(),
            trace.deep_view().len() == old(trace).deep_view().len(),
            forall|j: int|
                0 <= j < trace.deep_view().len() ==> trace.deep_view()[j] == (if from <= j < i {
                    StepModel { predictor: name@, ..old(trace).deep_view()[j] }
                } else {
                    old(trace).deep_view()[j]
                }),
        decreases trace.deep_view().len() - i,
    {
        let ghost was = trace.deep_view();
        trace[i].predictor = name.to_owned();
        proof {
            assert(trace.deep_view() =~= was.update(
                i as int,
                StepModel { predictor: name@, ..was[i as int] },
            ));
        }
        i = i + 1;
    }
    proof {
        assert(trace.deep_view() =~= relabelled(old(trace).deep_view(), from as int, name@));
    }
}

/// Relabelling names exactly the steps from the mark on, changes nothing else of any step, and adds
/// and drops none.
pub proof fn law_relabelling_touches_only_later_names(
    trace: Seq<StepModel>,
    from: int,
    name: Seq<char>,
    i: int,
)
    requires
        0 <= i < trace.len(),
    ensures
        relabelled(trace, from, name).len() == trace.len(),
        i < from ==> relabelled(trace, from, name)[i] == trace[i],
        i >= from ==> relabelled(trace, from, name)[i].predictor == name,
        relabelled(trace, from, name)[i].inputs == trace[i].inputs,
        relabelled(trace, from, name)[i].outputs == trace[i].outputs,
        relabelled(trace, from, name)[i].signature == trace[i].signature,
{
}

/// A failure scores its own reward where it has one that is not zero, and the score for failures
/// otherwise.
pub proof fn law_a_failure_scores_its_own_reward(
    failure: FailureModel,
    format_failure_score: Double,
)
    ensures
        failure.format_reward matches Some(reward) && !is_zero(reward) ==> failure.worth(
            format_failure_score,
        ) == failure.format_reward->0,
        failure.format_reward is None || is_zero(failure.format_reward->0) ==> failure.worth(
            format_failure_score,
        ) == format_failure_score,
{
}

} // verus!
