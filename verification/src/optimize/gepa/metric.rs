//! What a metric says of one run, and what it is told about the run.
use vstd::prelude::*;
use vstd::string::StringExecFns;
use crate::double::Double;
use crate::duplicate::Duplicate;
use crate::module::trace::TraceStep;

verus! {

/// A score, and the text a reflection reads beside it.
#[derive(Debug)]
pub struct Feedback {
    pub score: Double,
    pub feedback: Option<String>,
}

/// What a [`Feedback`] holds.
#[verifier::ext_equal]
pub struct FeedbackModel {
    pub score: Double,
    pub feedback: Option<Seq<char>>,
}

impl FeedbackModel {
    /// The text a reflection reads: the metric's own, or a sentence about the score, which prints
    /// as `score_text`.
    pub open spec fn text(self, score_text: Seq<char>) -> Seq<char> {
        match self.feedback {
            Some(text) => text,
            None => "This trajectory got a score of "@ + score_text + "."@,
        }
    }
}

impl DeepView for Feedback {
    type V = FeedbackModel;

    open spec fn deep_view(&self) -> FeedbackModel {
        FeedbackModel { score: self.score, feedback: self.feedback.deep_view() }
    }
}

impl Duplicate for Feedback {
    fn duplicate(&self) -> (r: Self) {
        Feedback { score: self.score, feedback: self.feedback.duplicate() }
    }
}

impl Feedback {
    /// A score with its own text.
    pub fn new(score: Double, feedback: &str) -> (r: Feedback)
        ensures
            r.deep_view() == (FeedbackModel { score, feedback: Some(feedback@) }),
    {
        Feedback { score, feedback: Some(feedback.to_owned()) }
    }

    /// A bare score.
    pub fn score_only(score: Double) -> (r: Feedback)
        ensures
            r.deep_view() == (FeedbackModel { score, feedback: None }),
    {
        Feedback { score, feedback: None }
    }

    /// The text a reflection reads, where the score prints as `score_text`.
    pub fn text(&self, score_text: &str) -> (r: String)
        ensures
            r@ == self.deep_view().text(score_text@),
    {
        match &self.feedback {
            Some(text) => text.clone(),
            None => {
                let mut r: String = "This trajectory got a score of ".to_owned();
                r.append(score_text);
                r.append(".");
                r
            },
        }
    }
}

/// What a metric is told beside the row and the prediction.
#[derive(Clone, Copy, Debug)]
pub struct MetricContext<'a> {
    /// The run's steps.
    pub trace: Option<&'a Vec<TraceStep>>,
    /// The predictor whose feedback is wanted.
    pub predictor: Option<&'a str>,
    /// The call of that predictor that was drawn.
    pub predictor_step: Option<&'a TraceStep>,
    /// The run's steps, where a whole program is scored.
    pub program_trace: Option<&'a Vec<TraceStep>>,
}

impl<'a> MetricContext<'a> {
    /// Scoring a run. A program that holds generated code hands its steps over as the program's;
    /// any other hands them over only while traces are kept.
    pub fn scoring_run(has_flexes: bool, capture_traces: bool, trace: &'a Vec<TraceStep>) -> (r:
        MetricContext<'a>)
        ensures
            r == if has_flexes {
                MetricContext {
                    trace: None,
                    predictor: None,
                    predictor_step: None,
                    program_trace: Some(trace),
                }
            } else if capture_traces {
                MetricContext {
                    trace: Some(trace),
                    predictor: None,
                    predictor_step: None,
                    program_trace: None,
                }
            } else {
                MetricContext {
                    trace: None,
                    predictor: None,
                    predictor_step: None,
                    program_trace: None,
                }
            },
    {
        if has_flexes {
            MetricContext::scoring_a_program(trace)
        } else if capture_traces {
            MetricContext::scoring(Some(trace))
        } else {
            MetricContext::scoring(None)
        }
    }

    /// Scoring a run, with its steps where they are kept.
    pub fn scoring(trace: Option<&'a Vec<TraceStep>>) -> (r: MetricContext<'a>)
        ensures
            r == (MetricContext {
                trace,
                predictor: None,
                predictor_step: None,
                program_trace: None,
            }),
    {
        MetricContext { trace, predictor: None, predictor_step: None, program_trace: None }
    }

    /// Scoring a program that holds generated code.
    pub fn scoring_a_program(program_trace: &'a Vec<TraceStep>) -> (r: MetricContext<'a>)
        ensures
            r == (MetricContext {
                trace: None,
                predictor: None,
                predictor_step: None,
                program_trace: Some(program_trace),
            }),
    {
        MetricContext {
            trace: None,
            predictor: None,
            predictor_step: None,
            program_trace: Some(program_trace),
        }
    }

    /// Reflecting on one drawn call of one predictor.
    pub fn reflecting(
        trace: &'a Vec<TraceStep>,
        predictor: &'a str,
        predictor_step: &'a TraceStep,
    ) -> (r: MetricContext<'a>)
        ensures
            r == (MetricContext {
                trace: Some(trace),
                predictor: Some(predictor),
                predictor_step: Some(predictor_step),
                program_trace: None,
            }),
    {
        MetricContext {
            trace: Some(trace),
            predictor: Some(predictor),
            predictor_step: Some(predictor_step),
            program_trace: None,
        }
    }
}

/// A metric's own words are read as they are, and a bare score as a sentence that states it.
pub proof fn law_feedback_is_read_as_given(
    score: Double,
    feedback: Seq<char>,
    score_text: Seq<char>,
)
    ensures
        (FeedbackModel { score, feedback: Some(feedback) }).text(score_text) == feedback,
        (FeedbackModel { score, feedback: None }).text(score_text)
            == "This trajectory got a score of "@ + score_text + "."@,
{
}

} // verus!
