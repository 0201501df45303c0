//! Watching one evaluation: a point that holds every row's run inside it.
use vstd::prelude::*;
use vstd::string::StringExecFns;
use crate::duplicate::Duplicate;
use crate::example::{Example, ExampleModel};
use crate::observe::telling::{Answer, AnswerModel, Given, GivenModel, OutcomeModel, Point};
use crate::observe::{is_told_of, lemma_unwatched, opened, Audience, AudienceModel, Watch, WatchModel};
use crate::text::{decimal, decimal_text};

verus! {

/// What an evaluation covers.
#[derive(Clone, Copy, Debug, PartialEq, Eq, Structural)]
pub enum Pass {
    Full,
    Minibatch,
}

impl Pass {
    pub open spec fn named(self) -> Seq<char> {
        match self {
            Pass::Full => "full"@,
            Pass::Minibatch => "minibatch"@,
        }
    }

    pub fn name(self) -> (r: &'static str)
        ensures
            r@ == self.named(),
    {
        match self {
            Pass::Full => "full",
            Pass::Minibatch => "minibatch",
        }
    }
}

/// What an evaluation found.
#[derive(Debug)]
pub struct Evaluation {
    /// The score, as it prints.
    pub score: String,
    pub rows: usize,
    pub failed: usize,
}

/// What an [`Evaluation`] holds.
#[verifier::ext_equal]
pub struct EvaluationModel {
    pub score: Seq<char>,
    pub rows: usize,
    pub failed: usize,
}

impl DeepView for Evaluation {
    type V = EvaluationModel;

    open spec fn deep_view(&self) -> EvaluationModel {
        EvaluationModel { score: self.score@, rows: self.rows, failed: self.failed }
    }
}

impl Duplicate for Evaluation {
    fn duplicate(&self) -> (r: Self) {
        Evaluation { score: self.score.clone(), rows: self.rows, failed: self.failed }
    }
}

/// What is recorded of an evaluation.
pub open spec fn described(found: EvaluationModel) -> Seq<char> {
    "{\"score\":"@ + found.score + ",\"rows\":"@ + decimal(found.rows as nat) + ",\"failed\":"@
        + decimal(found.failed as nat) + "}"@
}

/// An evaluation, open: its rows are counted for the record, and handed whole to every listener.
pub open spec fn evaluate_point(
    devset: Seq<ExampleModel>,
    threads: usize,
    pass: Option<Pass>,
    call: u64,
    audience: AudienceModel,
) -> WatchModel {
    let counted = opened("evaluate"@, call, audience).with("rows"@, decimal(devset.len())).with(
        "threads"@,
        decimal(threads as nat),
    );
    (match pass {
        Some(pass) => counted.with("pass"@, pass.named()),
        None => counted,
    }).started(GivenModel::Evaluate { devset, threads, pass })
}

/// An evaluation of these rows, so many at a time.
pub fn evaluating(
    devset: &Vec<Example>,
    threads: usize,
    pass: Option<Pass>,
    call: u64,
    audience: &Audience,
) -> (r: Watch)
    ensures
        r.deep_view() == evaluate_point(
            devset.deep_view(),
            threads,
            pass,
            call,
            audience.deep_view(),
        ),
{
    let mut watch = Watch::open("evaluate", call, audience);
    watch.record("rows", decimal_text(devset.len()).as_str());
    watch.record("threads", decimal_text(threads).as_str());
    if let Some(pass) = pass {
        watch.record("pass", pass.name());
    }
    proof {
        lemma_unwatched(watch.deep_view());
    }
    if watch.is_heard() {
        watch.start(Given::Evaluate { devset: devset.duplicate(), threads, pass });
    }
    watch
}

/// [`described`], computed.
pub fn describe(evaluation: &Evaluation) -> (r: String)
    ensures
        r@ == described(evaluation.deep_view()),
{
    let mut r: String = "{\"score\":".to_owned();
    r.append(evaluation.score.as_str());
    r.append(",\"rows\":");
    r.append(decimal_text(evaluation.rows).as_str());
    r.append(",\"failed\":");
    r.append(decimal_text(evaluation.failed).as_str());
    r.append("}");
    r
}

/// Closes an evaluation's point: what it found, or why it gave up.
pub fn scored(watch: &mut Watch, evaluated: &Result<Evaluation, String>)
    ensures
        final(watch).deep_view() == old(watch).deep_view().closed(
            Point::Evaluate,
            match *evaluated {
                Ok(found) => OutcomeModel::Answered(AnswerModel::Evaluated(found.deep_view())),
                Err(error) => OutcomeModel::Failed(error@),
            },
        ),
{
    proof {
        lemma_unwatched(watch.deep_view());
    }
    if watch.is_watched() {
        watch.close(
            Point::Evaluate,
            match evaluated {
                Ok(found) => Ok(Answer::Evaluated(found.duplicate())),
                Err(error) => Err(error.clone()),
            },
        );
    }
}

/// An evaluation is recorded with the number of its rows and threads and the pass it makes, and
/// every listener is handed all its rows.
pub proof fn law_an_evaluation_is_shown_whole(
    devset: Seq<ExampleModel>,
    threads: usize,
    pass: Option<Pass>,
    call: u64,
    audience: AudienceModel,
)
    ensures
        ({
            let watch = evaluate_point(devset, threads, pass, call, audience);
            let counts = seq![
                ("rows"@, decimal(devset.len())),
                ("threads"@, decimal(threads as nat)),
            ];
            &&& watch.point == "evaluate"@
            &&& !audience.recording ==> watch.fields.len() == 0
            &&& audience.recording ==> watch.fields == match pass {
                None => counts,
                Some(Pass::Full) => counts.push(("pass"@, "full"@)),
                Some(Pass::Minibatch) => counts.push(("pass"@, "minibatch"@)),
            }
            &&& is_told_of(
                watch,
                call,
                audience.listeners,
                GivenModel::Evaluate { devset, threads, pass },
            )
        }),
{
    let watch = evaluate_point(devset, threads, pass, call, audience);
    let counts = seq![("rows"@, decimal(devset.len())), ("threads"@, decimal(threads as nat))];
    if audience.recording {
        assert(watch.fields =~= match pass {
            None => counts,
            Some(Pass::Full) => counts.push(("pass"@, "full"@)),
            Some(Pass::Minibatch) => counts.push(("pass"@, "minibatch"@)),
        });
    }
}

/// What is recorded of an evaluation is a JSON object of its score, its rows and its failed rows.
pub proof fn law_an_evaluation_is_described_in_full(found: EvaluationModel)
    ensures
        described(found) == "{\"score\":"@ + found.score + ",\"rows\":"@ + decimal(
            found.rows as nat,
        ) + ",\"failed\":"@ + decimal(found.failed as nat) + "}"@,
{
}

} // verus!
