//! Running a candidate over a batch: what one run contributes, and what a batch of runs comes to.
//!
//! A run whose completion would not parse still contributes, unless part of it did parse: such a
//! run is dropped, and the batch comes back shorter.
use vstd::prelude::*;
use crate::double::Double;
use crate::duplicate::{append, Duplicate};
use crate::example::{Example, ExampleModel, Prediction, PredictionModel};
use crate::module::trace::{
    FailedPrediction, FailureModel, OutputsModel, StepModel, StepOutputs, TraceStep,
};
use crate::optimize::gepa::metric::{Feedback, FeedbackModel};
use crate::optimize::gepa::reflecting::{Captured, CapturedModel};
use crate::signature::{Signature, SignatureModel};

verus! {

/// What is kept of a run.
#[derive(Clone, Copy, Debug, PartialEq, Eq, Structural)]
pub struct Capture {
    pub traces: bool,
    pub track_best_outputs: bool,
}

/// What one run contributes: nothing at all where it has no score.
#[derive(Debug)]
pub struct Ran {
    pub score: Option<Double>,
    pub captured: Option<Captured>,
    pub prediction: Option<Prediction>,
}

/// What a [`Ran`] holds.
#[verifier::ext_equal]
pub struct RanModel {
    pub score: Option<Double>,
    pub captured: Option<CapturedModel>,
    pub prediction: Option<PredictionModel>,
}

impl DeepView for Ran {
    type V = RanModel;

    open spec fn deep_view(&self) -> RanModel {
        RanModel {
            score: self.score,
            captured: self.captured.deep_view(),
            prediction: self.prediction.deep_view(),
        }
    }
}

/// A completion that did not hold the fields a signature declares.
#[derive(Debug)]
pub struct FieldMismatch {
    /// The completion.
    pub lm_response: String,
    /// Whether any declared field was read from it.
    pub some_field_parsed: bool,
    /// The signature it was read against.
    pub signature: Signature,
}

/// What a [`FieldMismatch`] holds.
#[verifier::ext_equal]
pub struct MismatchModel {
    pub lm_response: Seq<char>,
    pub some_field_parsed: bool,
    pub signature: SignatureModel,
}

impl DeepView for FieldMismatch {
    type V = MismatchModel;

    open spec fn deep_view(&self) -> MismatchModel {
        MismatchModel {
            lm_response: self.lm_response@,
            some_field_parsed: self.some_field_parsed,
            signature: self.signature.deep_view(),
        }
    }
}

/// The first predictor with this signature.
pub open spec fn owner(
    predictors: Seq<(Seq<char>, SignatureModel)>,
    signature: SignatureModel,
) -> Option<Seq<char>>
    decreases predictors.len(),
{
    if predictors.len() == 0 {
        None
    } else if predictors[0].1 == signature {
        Some(predictors[0].0)
    } else {
        owner(predictors.skip(1), signature)
    }
}

/// The failure a run ended in: the completion where there is one, or else the error's own words.
pub open spec fn failure_of(
    mismatch: Option<MismatchModel>,
    error: Seq<char>,
    failure_score: Double,
) -> FailureModel {
    FailureModel {
        completion_text: match mismatch {
            Some(mismatch) => mismatch.lm_response,
            None => error,
        },
        format_reward: Some(failure_score),
    }
}

/// The steps of a failed run, with the failing call after them where a predictor owns it.
pub open spec fn failed_trace(
    trace: Seq<StepModel>,
    inputs: ExampleModel,
    mismatch: Option<MismatchModel>,
    predictors: Seq<(Seq<char>, SignatureModel)>,
    failure: FailureModel,
) -> Seq<StepModel> {
    match mismatch {
        Some(mismatch) => match owner(predictors, mismatch.signature) {
            Some(name) => trace.push(
                StepModel {
                    predictor: name,
                    inputs,
                    outputs: OutputsModel::Unparsed(failure),
                    signature: mismatch.signature,
                },
            ),
            None => trace,
        },
        None => trace,
    }
}

/// A prediction that holds nothing.
pub open spec fn no_prediction() -> PredictionModel {
    PredictionModel {
        example: ExampleModel { fields: Seq::empty(), input_keys: None },
        completion: Seq::empty(),
    }
}

/// What a run that ended in a failure contributes.
pub open spec fn failed_run(
    example: ExampleModel,
    inputs: ExampleModel,
    trace: Seq<StepModel>,
    mismatch: Option<MismatchModel>,
    error: Seq<char>,
    predictors: Seq<(Seq<char>, SignatureModel)>,
    failure_score: Double,
    capture: Capture,
) -> RanModel {
    if mismatch is Some && mismatch->0.some_field_parsed {
        RanModel { score: None, captured: None, prediction: None }
    } else {
        let failure = failure_of(mismatch, error, failure_score);
        let score = failure.worth(failure_score);
        RanModel {
            score: Some(score),
            captured: if capture.traces {
                Some(
                    CapturedModel {
                        example,
                        prediction: no_prediction(),
                        trace: failed_trace(trace, inputs, mismatch, predictors, failure),
                        scored: FeedbackModel { score, feedback: None },
                        unparsed: Some(failure),
                    },
                )
            } else {
                None
            },
            prediction: if capture.track_best_outputs {
                Some(no_prediction())
            } else {
                None
            },
        }
    }
}

fn owner_at(predictors: &Vec<(String, Signature)>, signature: &Signature) -> (r: Option<usize>)
    ensures
        match r {
            Some(at) => at < predictors@.len() && owner(
                predictors.deep_view(),
                signature.deep_view(),
            ) == Some(predictors@[at as int].0@) && predictors@[at as int].1.deep_view()
                == signature.deep_view(),
            None => owner(predictors.deep_view(), signature.deep_view()) is None,
        },
{
    let ghost model = predictors.deep_view();
    let ghost wanted = signature.deep_view();
    let mut i: usize = 0;
    proof {
        assert(model.skip(0) =~= model);
    }
    while i < predictors.len()
        invariant
            i <= predictors@.len(),
            model == predictors.deep_view(),
            wanted == signature.deep_view(),
            owner(model, wanted) == owner(model.skip(i as int), wanted),
        decreases predictors@.len() - i,
    {
        proof {
            assert(model.skip(i as int).skip(1) =~= model.skip(i + 1));
            assert(model.skip(i as int)[0] == (
                predictors@[i as int].0@,
                predictors@[i as int].1.deep_view(),
            ));
        }
        if predictors[i].1.equals(signature) {
            return Some(i);
        }
        i = i + 1;
    }
    None
}

/// What a run that ended in an error contributes. Where a declared field was read it is dropped;
/// otherwise it scores the failure score and keeps the completion nobody could read.
pub fn did_not_parse(
    example: &Example,
    inputs: Example,
    trace: Vec<TraceStep>,
    mismatch: Option<FieldMismatch>,
    error: &str,
    predictors: &Vec<(String, Signature)>,
    failure_score: Double,
    capture: Capture,
) -> (r: Ran)
    ensures
        r.deep_view() == failed_run(
            example.deep_view(),
            inputs.deep_view(),
            trace.deep_view(),
            mismatch.deep_view(),
            error@,
            predictors.deep_view(),
            failure_score,
            capture,
        ),
{
    let ghost given = mismatch.deep_view();
    if let Some(found) = &mismatch {
        if found.some_field_parsed {
            return Ran { score: None, captured: None, prediction: None };
        }
    }
    let completion_text = match &mismatch {
        Some(found) => found.lm_response.clone(),
        None => error.to_owned(),
    };
    let unparsed = FailedPrediction { completion_text, format_reward: Some(failure_score) };
    let score = unparsed.score(failure_score);
    let mut steps = trace;
    if let Some(found) = &mismatch {
        if let Some(at) = owner_at(predictors, &found.signature) {
            append(
                &mut steps,
                TraceStep {
                    predictor: predictors[at].0.clone(),
                    inputs,
                    outputs: StepOutputs::Unparsed(unparsed.duplicate()),
                    signature: predictors[at].1.duplicate(),
                },
            );
        }
    }
    let prediction = if capture.track_best_outputs {
        Some(empty_prediction())
    } else {
        None
    };
    let captured = if capture.traces {
        Some(
            Captured {
                example: example.duplicate(),
                prediction: empty_prediction(),
                trace: steps,
                scored: Feedback::score_only(score),
                unparsed: Some(unparsed),
            },
        )
    } else {
        None
    };
    Ran { score: Some(score), captured, prediction }
}

fn empty_prediction() -> (r: Prediction)
    ensures
        r.deep_view() == no_prediction(),
{
    let r = Prediction::new(Example::default(), "");
    proof {
        reveal_strlit("");
        assert(r.deep_view() =~= no_prediction());
    }
    r
}

/// What a run that answered contributes.
pub fn answered(
    example: &Example,
    prediction: &Prediction,
    trace: Vec<TraceStep>,
    feedback: &Feedback,
    capture: Capture,
) -> (r: Ran)
    ensures
        r.deep_view() == (RanModel {
            score: Some(feedback.score),
            captured: if capture.traces {
                Some(
                    CapturedModel {
                        example: example.deep_view(),
                        prediction: prediction.deep_view(),
                        trace: trace.deep_view(),
                        scored: feedback.deep_view(),
                        unparsed: None,
                    },
                )
            } else {
                None
            },
            prediction: if capture.track_best_outputs {
                Some(prediction.deep_view())
            } else {
                None
            },
        }),
{
    let captured = if capture.traces {
        Some(
            Captured {
                example: example.duplicate(),
                prediction: prediction.duplicate(),
                trace,
                scored: feedback.duplicate(),
                unparsed: None,
            },
        )
    } else {
        None
    };
    let kept = if capture.track_best_outputs {
        Some(prediction.duplicate())
    } else {
        None
    };
    Ran { score: Some(feedback.score), captured, prediction: kept }
}

/// What a batch of runs comes to.
#[derive(Debug)]
pub struct Batch {
    pub scores: Vec<Double>,
    pub captured: Vec<Captured>,
    /// What each run answered, where every kept run says.
    pub outputs: Option<Vec<Prediction>>,
}

/// What a [`Batch`] holds.
#[verifier::ext_equal]
pub struct BatchModel {
    pub scores: Seq<Double>,
    pub captured: Seq<CapturedModel>,
    pub outputs: Option<Seq<PredictionModel>>,
}

impl DeepView for Batch {
    type V = BatchModel;

    open spec fn deep_view(&self) -> BatchModel {
        BatchModel {
            scores: self.scores@,
            captured: self.captured.deep_view(),
            outputs: self.outputs.deep_view(),
        }
    }
}

/// The scores of the runs that have one.
pub open spec fn kept_scores(ran: Seq<RanModel>) -> Seq<Double>
    decreases ran.len(),
{
    if ran.len() == 0 {
        Seq::empty()
    } else {
        let before = kept_scores(ran.drop_last());
        match ran.last().score {
            Some(score) => before.push(score),
            None => before,
        }
    }
}

/// The traces of the runs that have a score.
pub open spec fn kept_traces(ran: Seq<RanModel>) -> Seq<CapturedModel>
    decreases ran.len(),
{
    if ran.len() == 0 {
        Seq::empty()
    } else {
        let before = kept_traces(ran.drop_last());
        match (ran.last().score, ran.last().captured) {
            (Some(_), Some(captured)) => before.push(captured),
            _ => before,
        }
    }
}

/// The predictions of the runs that have a score.
pub open spec fn kept_predictions(ran: Seq<RanModel>) -> Seq<PredictionModel>
    decreases ran.len(),
{
    if ran.len() == 0 {
        Seq::empty()
    } else {
        let before = kept_predictions(ran.drop_last());
        match (ran.last().score, ran.last().prediction) {
            (Some(_), Some(prediction)) => before.push(prediction),
            _ => before,
        }
    }
}

/// A batch of runs: a run without a score is left out of every list, and the predictions are
/// handed back only where every kept run has one.
pub open spec fn gathered(ran: Seq<RanModel>, track_best_outputs: bool) -> BatchModel {
    BatchModel {
        scores: kept_scores(ran),
        captured: kept_traces(ran),
        outputs: if track_best_outputs && kept_predictions(ran).len() == kept_scores(ran).len() {
            Some(kept_predictions(ran))
        } else {
            None
        },
    }
}

/// Gathers the runs of a batch, in the order of its rows.
pub fn gather(ran: Vec<Ran>, track_best_outputs: bool) -> (r: Batch)
    ensures
        r.deep_view() == gathered(ran.deep_view(), track_best_outputs),
{
    let ghost model = ran.deep_view();
    let mut scores: Vec<Double> = Vec::new();
    let mut captured: Vec<Captured> = Vec::new();
    let mut answered: Vec<Prediction> = Vec::new();
    let mut rest = ran;
    let ghost mut done: int = 0;
    proof {
        assert(model.take(0) =~= Seq::<RanModel>::empty());
        assert(captured.deep_view() =~= Seq::<CapturedModel>::empty());
        assert(answered.deep_view() =~= Seq::<PredictionModel>::empty());
        assert(model.skip(0) =~= model);
    }
    while rest.len() > 0
        invariant
            0 <= done <= model.len(),
            rest.deep_view() == model.skip(done),
            scores@ == kept_scores(model.take(done)),
            captured.deep_view() == kept_traces(model.take(done)),
            answered.deep_view() == kept_predictions(model.take(done)),
        decreases rest@.len(),
    {
        let ghost left = rest.deep_view();
        let first = rest.remove(0);
        proof {
            assert(rest.deep_view() =~= left.skip(1));
            assert(left.skip(1) =~= model.skip(done + 1));
            assert(first.deep_view() == left[0]);
            assert(left[0] == model[done]);
            assert(model.take(done + 1).drop_last() =~= model.take(done));
        }
        if let Some(score) = first.score {
            scores.push(score);
            if let Some(trace) = first.captured {
                append(&mut captured, trace);
            }
            if let Some(prediction) = first.prediction {
                append(&mut answered, prediction);
            }
        }
        proof {
            done = done + 1;
        }
    }
    proof {
        assert(model.take(done) =~= model);
    }
    let outputs = if track_best_outputs && answered.len() == scores.len() {
        Some(answered)
    } else {
        None
    };
    Batch { scores, captured, outputs }
}

proof fn lemma_kept(ran: Seq<RanModel>)
    ensures
        kept_scores(ran).len() <= ran.len(),
        kept_traces(ran).len() <= kept_scores(ran).len(),
        kept_predictions(ran).len() <= kept_scores(ran).len(),
    decreases ran.len(),
{
    if ran.len() > 0 {
        lemma_kept(ran.drop_last());
    }
}

/// A batch's lists never outgrow its rows, and predictions handed back line up with the scores,
/// one for one.
pub proof fn law_outputs_line_up_with_scores(ran: Seq<RanModel>, track_best_outputs: bool)
    ensures
        gathered(ran, track_best_outputs).scores.len() <= ran.len(),
        gathered(ran, track_best_outputs).captured.len() <= gathered(
            ran,
            track_best_outputs,
        ).scores.len(),
        gathered(ran, track_best_outputs).outputs is Some ==> track_best_outputs && gathered(
            ran,
            track_best_outputs,
        ).outputs->0.len() == gathered(ran, track_best_outputs).scores.len(),
{
    lemma_kept(ran);
}

/// A run of which nothing parsed stays in its batch, scoring the failure score; one of which
/// something parsed leaves every list.
pub proof fn law_only_a_partly_parsed_run_is_dropped(
    example: ExampleModel,
    inputs: ExampleModel,
    trace: Seq<StepModel>,
    mismatch: Option<MismatchModel>,
    error: Seq<char>,
    predictors: Seq<(Seq<char>, SignatureModel)>,
    failure_score: Double,
    capture: Capture,
)
    ensures
        ({
            let run = failed_run(
                example,
                inputs,
                trace,
                mismatch,
                error,
                predictors,
                failure_score,
                capture,
            );
            if mismatch is Some && mismatch->0.some_field_parsed {
                run.score is None && run.captured is None && run.prediction is None
            } else {
                run.score == Some(failure_score)
            }
        }),
{
}

/// A batch holds what every run with a score contributed, in the order of the rows: one run more adds
/// its score, its trace where it kept one and its prediction where it kept one, and a run without a
/// score adds nothing.
pub proof fn law_every_scored_run_is_in_the_batch(ran: Seq<RanModel>, run: RanModel)
    ensures
        ({
            let before = gathered(ran, true);
            let after = gathered(ran.push(run), true);
            &&& gathered(Seq::empty(), true).scores.len() == 0
            &&& gathered(Seq::empty(), true).captured.len() == 0
            &&& run.score is None ==> after.scores == before.scores && after.captured
                == before.captured && after.outputs == before.outputs
            &&& run.score matches Some(score) ==> after.scores == before.scores.push(score)
            &&& run.score is Some && run.captured is Some ==> after.captured
                == before.captured.push(run.captured->0)
            &&& run.score is Some && run.captured is None ==> after.captured == before.captured
            &&& run.score is Some && run.prediction is Some && before.outputs is Some
                ==> after.outputs == Some(before.outputs->0.push(run.prediction->0))
            &&& run.score is Some && (run.prediction is None || before.outputs is None)
                ==> after.outputs is None
            &&& gathered(Seq::empty(), true).outputs == Some(Seq::<PredictionModel>::empty())
            &&& gathered(ran, false).scores == before.scores
            &&& gathered(ran, false).captured == before.captured
            &&& gathered(ran, false).outputs is None
        }),
{
    assert(ran.push(run).drop_last() =~= ran);
    lemma_kept(ran);
}

/// A run that ended in a failure keeps what nobody could read: the completion where there is one,
/// and else the error. Its trace ends on the failing call where a predictor has the signature the
/// completion was read against, under the first such predictor, and is the run's own otherwise.
pub proof fn law_a_failed_run_keeps_what_failed(
    example: ExampleModel,
    inputs: ExampleModel,
    trace: Seq<StepModel>,
    mismatch: Option<MismatchModel>,
    error: Seq<char>,
    predictors: Seq<(Seq<char>, SignatureModel)>,
    failure_score: Double,
    capture: Capture,
    p: int,
)
    requires
        mismatch is Some ==> !mismatch->0.some_field_parsed,
        capture.traces,
    ensures
        ({
            let run = failed_run(
                example,
                inputs,
                trace,
                mismatch,
                error,
                predictors,
                failure_score,
                capture,
            );
            let failure = FailureModel {
                completion_text: if mismatch is Some {
                    mismatch->0.lm_response
                } else {
                    error
                },
                format_reward: Some(failure_score),
            };
            let owned = |q: int|
                0 <= q < predictors.len() && mismatch is Some && predictors[q].1
                    == mismatch->0.signature;
            &&& run.score == Some(failure_score)
            &&& run.captured is Some
            &&& run.captured->0.example == example
            &&& run.captured->0.unparsed == Some(failure)
            &&& run.captured->0.scored == (FeedbackModel { score: failure_score, feedback: None })
            &&& owned(p) && (forall|q: int| 0 <= q < p ==> !(#[trigger] owned(q)))
                ==> run.captured->0.trace == trace.push(
                StepModel {
                    predictor: predictors[p].0,
                    inputs,
                    outputs: OutputsModel::Unparsed(failure),
                    signature: mismatch->0.signature,
                },
            )
            &&& (forall|q: int| !(#[trigger] owned(q))) ==> run.captured->0.trace == trace
            &&& run.prediction is Some <==> capture.track_best_outputs
        }),
{
    let owned = |q: int|
        0 <= q < predictors.len() && mismatch is Some && predictors[q].1 == mismatch->0.signature;
    if owned(p) && forall|q: int| 0 <= q < p ==> !(#[trigger] owned(q)) {
        assert forall|q: int| 0 <= q < p implies (#[trigger] predictors[q]).1
            != mismatch->0.signature by {
            assert(!owned(q));
        }
        lemma_owner(predictors, mismatch->0.signature, p);
    }
    if mismatch is Some && forall|q: int| !(#[trigger] owned(q)) {
        assert forall|q: int| 0 <= q < predictors.len() implies (#[trigger] predictors[q]).1
            != mismatch->0.signature by {
            assert(!owned(q));
        }
        lemma_no_owner(predictors, mismatch->0.signature);
    }
}

proof fn lemma_owner(
    predictors: Seq<(Seq<char>, SignatureModel)>,
    signature: SignatureModel,
    p: int,
)
    requires
        0 <= p < predictors.len(),
        predictors[p].1 == signature,
        forall|q: int| 0 <= q < p ==> (#[trigger] predictors[q]).1 != signature,
    ensures
        owner(predictors, signature) == Some(predictors[p].0),
    decreases predictors.len(),
{
    if p > 0 {
        let rest = predictors.skip(1);
        assert(predictors[0].1 != signature);
        assert forall|q: int| 0 <= q < p - 1 implies (#[trigger] rest[q]).1 != signature by {
            assert(rest[q] == predictors[q + 1]);
        }
        lemma_owner(rest, signature, p - 1);
    }
}

proof fn lemma_no_owner(predictors: Seq<(Seq<char>, SignatureModel)>, signature: SignatureModel)
    requires
        forall|q: int| 0 <= q < predictors.len() ==> (#[trigger] predictors[q]).1 != signature,
    ensures
        owner(predictors, signature) is None,
    decreases predictors.len(),
{
    if predictors.len() > 0 {
        let rest = predictors.skip(1);
        assert(predictors[0].1 != signature);
        assert forall|q: int| 0 <= q < rest.len() implies (#[trigger] rest[q]).1 != signature by {
            assert(rest[q] == predictors[q + 1]);
        }
        lemma_no_owner(rest, signature);
    }
}

} // verus!
