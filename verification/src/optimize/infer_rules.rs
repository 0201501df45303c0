//! Bootstrapping, and then asking a model to write the task's rules down.
//!
//! Each candidate appends the rules a model induced from the trainset to every predictor's
//! instruction; the candidate that scores best is kept.
use vstd::prelude::*;
use vstd::string::StringExecFns;
use crate::double::{exceeds, Double};
use crate::duplicate::{append, duplicate_range, Duplicate};
use crate::example::{Example, ExampleModel, Prediction, names_hold};
use crate::module::state::{
    lemma_none_missing, missing_names, restored_program, saved_program, MissingEntries,
    ProgramState, ProgramStateModel,
};
use crate::module::trust::Trust;
use crate::optimize::bootstrap::{configured, BootstrapFewShot};
use crate::optimize::leader::{law_the_leader_is_the_first_highest, leader};
use crate::optimize::scoring::{default_scoring, Scoring};
use crate::program::{rollout_sampling, PredictorModel, Program, Sampling};
use crate::signature::{
    input, names_of, output, plain_field, InField, OutField, Signature, SignatureModel,
};
use crate::text::{decimal, decimal_text, join, joined, trim, trimmed};

verus! {

/// One candidate: the rules each predictor was given, and what the program scored.
#[derive(Debug)]
pub struct RuleCandidate {
    /// One entry per predictor.
    pub rules: Vec<String>,
    pub score: Double,
}

/// What a [`RuleCandidate`] holds.
#[verifier::ext_equal]
pub struct RuleCandidateModel {
    pub rules: Seq<Seq<char>>,
    pub score: Double,
}

impl DeepView for RuleCandidate {
    type V = RuleCandidateModel;

    open spec fn deep_view(&self) -> RuleCandidateModel {
        RuleCandidateModel { rules: self.rules.deep_view(), score: self.score }
    }
}

/// The settings of a run.
#[derive(Clone, Copy, Debug, PartialEq, Eq, Structural)]
pub struct InferRules {
    /// How many rule sets are induced and scored.
    pub num_candidates: usize,
    /// How many rules are asked for.
    pub num_rules: usize,
    pub max_bootstrapped_demos: usize,
    pub max_labeled_demos: usize,
    pub scoring: Scoring,
}

/// Ten candidates of ten rules each.
pub open spec fn default_infer_rules() -> InferRules {
    InferRules {
        num_candidates: 10,
        num_rules: 10,
        max_bootstrapped_demos: 4,
        max_labeled_demos: 16,
        scoring: default_scoring(),
    }
}

/// An instruction with rules under it.
pub open spec fn ruled(instructions: Seq<char>, rules: Seq<char>) -> Seq<char> {
    instructions + "\n\nPlease adhere to the following rules when making your prediction:\n"@ + rules
}

/// [`ruled`], computed.
pub fn with_rules(instructions: &str, rules: &str) -> (r: String)
    ensures
        r@ == ruled(instructions@, rules@),
{
    let mut r: String = instructions.to_owned();
    r.append("\n\nPlease adhere to the following rules when making your prediction:\n");
    r.append(rules);
    r
}

/// How much of a trainset rules are learned from where no valset is given: the smaller half.
pub fn train_size(length: usize) -> (r: usize)
    ensures
        r == length / 2,
{
    length / 2
}

/// The rows rules are learned from and those candidates are scored on.
pub fn split_trainset(trainset: &Vec<Example>, valset: Option<&Vec<Example>>) -> (r: (
    Vec<Example>,
    Vec<Example>,
))
    ensures
        match valset {
            Some(given) => r.0.deep_view() == trainset.deep_view() && r.1.deep_view()
                == given.deep_view(),
            None => {
                &&& r.0.deep_view() == trainset.deep_view().take(trainset@.len() as int / 2)
                &&& r.1.deep_view() == trainset.deep_view().skip(trainset@.len() as int / 2)
            },
        },
{
    match valset {
        Some(given) => (trainset.duplicate(), given.duplicate()),
        None => {
            let size: usize = train_size(trainset.len());
            proof {
                assert(trainset.deep_view().subrange(0, size as int) =~= trainset.deep_view().take(
                    size as int,
                ));
                assert(trainset.deep_view().subrange(size as int, trainset@.len() as int)
                    =~= trainset.deep_view().skip(size as int));
            }
            (duplicate_range(trainset, 0, size), duplicate_range(trainset, size, trainset.len()))
        },
    }
}

/// The task rules are induced under.
pub open spec fn induction_task(num_rules: nat) -> SignatureModel {
    SignatureModel {
        instructions: "Given a set of examples, extract a list of "@ + decimal(num_rules)
            + " concise and non-redundant natural language rules that provide clear guidance for performing the task. All rules should be actionable for a well-specified scope of examples of this general kind of task."@,
        inputs: seq![plain_field("examples_text"@, "Text containing examples"@)],
        outputs: seq![
            plain_field("natural_language_rules"@, "Induced natural language rules"@),
        ],
    }
}

/// One row as it prints: each field's name, and its value formatted.
pub type PrintedRow = Vec<(String, String)>;

/// The lines of the fields among `names`, in the row's order.
pub open spec fn lines_of(
    row: Seq<(Seq<char>, Seq<char>)>,
    names: Seq<Seq<char>>,
    others: Seq<Seq<char>>,
) -> Seq<Seq<char>>
    decreases row.len(),
{
    if row.len() == 0 {
        Seq::empty()
    } else {
        let before = lines_of(row.drop_last(), names, others);
        if names.contains(row.last().0) && !others.contains(row.last().0) {
            before.push(row.last().0 + ": "@ + row.last().1)
        } else {
            before
        }
    }
}

/// One row narrowed to a signature's own fields. A field that is both is shown as an input.
pub open spec fn row_text(
    row: Seq<(Seq<char>, Seq<char>)>,
    signature: SignatureModel,
) -> Seq<char> {
    let inputs = lines_of(row, names_of(signature.inputs), Seq::empty());
    let outputs = lines_of(row, names_of(signature.outputs), names_of(signature.inputs));
    "Input Fields:\n"@ + joined(inputs, "\n"@) + "\n\n=========\nOutput Fields:\n"@ + joined(
        outputs,
        "\n"@,
    ) + "\n\n"@
}

/// The rows a model induces rules from.
pub open spec fn rows_text(
    rows: Seq<Seq<(Seq<char>, Seq<char>)>>,
    signature: SignatureModel,
) -> Seq<char>
    decreases rows.len(),
{
    if rows.len() == 0 {
        Seq::empty()
    } else {
        rows_text(rows.drop_last(), signature) + row_text(rows.last(), signature)
    }
}

fn row_block(row: &PrintedRow, inputs: &Vec<String>, outputs: &Vec<String>) -> (r: (
    Vec<String>,
    Vec<String>,
))
    ensures
        r.0.deep_view() == lines_of(row.deep_view(), inputs.deep_view(), Seq::empty()),
        r.1.deep_view() == lines_of(row.deep_view(), outputs.deep_view(), inputs.deep_view()),
{
    let ghost model = row.deep_view();
    let mut asked: Vec<String> = Vec::new();
    let mut answered: Vec<String> = Vec::new();
    let mut i: usize = 0;
    proof {
        assert(asked.deep_view() =~= lines_of(model.take(0), inputs.deep_view(), Seq::empty()));
        assert(answered.deep_view() =~= lines_of(
            model.take(0),
            outputs.deep_view(),
            inputs.deep_view(),
        ));
    }
    while i < row.len()
        invariant
            i <= row@.len(),
            model == row.deep_view(),
            asked.deep_view() == lines_of(
                model.take(i as int),
                inputs.deep_view(),
                Seq::empty(),
            ),
            answered.deep_view() == lines_of(
                model.take(i as int),
                outputs.deep_view(),
                inputs.deep_view(),
            ),
        decreases row@.len() - i,
    {
        proof {
            assert(model.take(i + 1).drop_last() =~= model.take(i as int));
            assert(model.take(i + 1).last() == (row@[i as int].0@, row@[i as int].1@));
        }
        let name = row[i].0.as_str();
        let mut line: String = row[i].0.clone();
        line.append(": ");
        line.append(row[i].1.as_str());
        if names_hold(inputs, name) {
            append(&mut asked, line);
        } else if names_hold(outputs, name) {
            append(&mut answered, line);
        }
        i = i + 1;
    }
    proof {
        assert(model.take(i as int) =~= model);
    }
    (asked, answered)
}

/// The rows a model induces rules from, each narrowed to the signature's own fields and written in
/// its own order.
pub fn examples_text(rows: &Vec<PrintedRow>, signature: &Signature) -> (r: String)
    ensures
        r@ == rows_text(rows.deep_view(), signature.deep_view()),
{
    let ghost model = rows.deep_view();
    let ghost task = signature.deep_view();
    let inputs = signature.input_names();
    let outputs = signature.output_names();
    let mut text: String = String::new();
    let mut i: usize = 0;
    proof {
        assert(text@ =~= rows_text(model.take(0), task));
    }
    while i < rows.len()
        invariant
            i <= rows@.len(),
            model == rows.deep_view(),
            task == signature.deep_view(),
            inputs.deep_view() == names_of(task.inputs),
            outputs.deep_view() == names_of(task.outputs),
            text@ == rows_text(model.take(i as int), task),
        decreases rows@.len() - i,
    {
        proof {
            assert(model.take(i + 1).drop_last() =~= model.take(i as int));
            assert(model.take(i + 1).last() == rows@[i as int].deep_view());
        }
        let (asked, answered) = row_block(&rows[i], &inputs, &outputs);
        let mut block: String = "Input Fields:\n".to_owned();
        block.append(join(&asked, "\n").as_str());
        block.append("\n\n=========\nOutput Fields:\n");
        block.append(join(&answered, "\n").as_str());
        block.append("\n\n");
        text.append(block.as_str());
        i = i + 1;
    }
    proof {
        assert(model.take(i as int) =~= model);
    }
    text
}

/// The rules a reply states, without the white space around them.
pub fn induced_rules(reply: &Prediction) -> (r: String)
    ensures
        r@ == trimmed(reply.deep_view().example.text("natural_language_rules"@)),
{
    let text = reply.example.text("natural_language_rules");
    trim(text.as_str())
}

/// One induction is asked at temperature one, under a rollout id of its own.
pub fn induction_sampling(rollout: u64) -> (r: Sampling)
    ensures
        r == rollout_sampling(rollout),
{
    Sampling::rollout(rollout)
}

impl InferRules {
    /// Ten candidates of ten rules each.
    pub fn new() -> (r: InferRules)
        ensures
            r == default_infer_rules(),
    {
        InferRules {
            num_candidates: 10,
            num_rules: 10,
            max_bootstrapped_demos: 4,
            max_labeled_demos: 16,
            scoring: Scoring::default(),
        }
    }

    /// How many rule sets to induce and score.
    pub fn num_candidates(self, num_candidates: usize) -> (r: InferRules)
        ensures
            r == (InferRules { num_candidates, ..self }),
    {
        InferRules { num_candidates, ..self }
    }

    /// How many rules to ask for.
    pub fn num_rules(self, num_rules: usize) -> (r: InferRules)
        ensures
            r == (InferRules { num_rules, ..self }),
    {
        InferRules { num_rules, ..self }
    }

    pub fn max_bootstrapped_demos(self, max_bootstrapped_demos: usize) -> (r: InferRules)
        ensures
            r == (InferRules { max_bootstrapped_demos, ..self }),
    {
        InferRules { max_bootstrapped_demos, ..self }
    }

    pub fn max_labeled_demos(self, max_labeled_demos: usize) -> (r: InferRules)
        ensures
            r == (InferRules { max_labeled_demos, ..self }),
    {
        InferRules { max_labeled_demos, ..self }
    }

    pub fn scoring(self, scoring: Scoring) -> (r: InferRules)
        ensures
            r == (InferRules { scoring, ..self }),
    {
        InferRules { scoring, ..self }
    }

    /// The bootstrap a run opens with.
    pub fn bootstrap(&self) -> (r: BootstrapFewShot)
        ensures
            r == (BootstrapFewShot {
                max_bootstrapped_demos: self.max_bootstrapped_demos,
                max_labeled_demos: self.max_labeled_demos,
                ..configured(true)
            }),
    {
        BootstrapFewShot {
            max_bootstrapped_demos: self.max_bootstrapped_demos,
            max_labeled_demos: self.max_labeled_demos,
            ..BootstrapFewShot::new()
        }
    }

    /// The task rules are induced under.
    pub fn induction_signature(&self) -> (r: Signature)
        ensures
            r.deep_view() == induction_task(self.num_rules as nat),
    {
        let mut instructions: String = "Given a set of examples, extract a list of ".to_owned();
        instructions.append(decimal_text(self.num_rules).as_str());
        instructions.append(
            " concise and non-redundant natural language rules that provide clear guidance for performing the task. All rules should be actionable for a well-specified scope of examples of this general kind of task.",
        );
        let mut inputs: Vec<InField> = Vec::new();
        append(&mut inputs, input("examples_text", "Text containing examples"));
        let mut outputs: Vec<OutField> = Vec::new();
        append(&mut outputs, output("natural_language_rules", "Induced natural language rules"));
        let r = Signature { instructions, inputs, outputs };
        proof {
            assert(r.deep_view() =~= induction_task(self.num_rules as nat));
        }
        r
    }
}

/// A program without predictors.
#[derive(Clone, Copy, Debug, PartialEq, Eq, Structural)]
pub struct NothingToInstruct;

impl NothingToInstruct {
    pub fn message(&self) -> (r: String)
        ensures
            r@ == "a program with no predictors has no instructions to add rules to"@,
    {
        "a program with no predictors has no instructions to add rules to".to_owned()
    }
}

/// Where a run stands.
#[derive(Clone, Copy, Debug, PartialEq, Eq, Structural)]
pub enum Stage {
    /// About to put the student back before the next candidate.
    Starting,
    /// Waiting for the rules of this predictor.
    Inducing { position: usize },
    /// Waiting for the candidate's score.
    Scoring,
    Done,
}

/// A run in progress.
#[derive(Debug)]
pub struct RuleSearch {
    pub settings: InferRules,
    /// The program as the bootstrap left it.
    pub bootstrapped: ProgramState,
    /// Its instructions, which rules are appended to.
    pub instructions: Vec<String>,
    /// The rules of the candidate at hand.
    pub rules: Vec<String>,
    pub candidates: Vec<RuleCandidate>,
    /// The best candidate's program and score.
    pub best: Option<(Double, ProgramState)>,
    pub stage: Stage,
}

/// What a [`RuleSearch`] holds.
#[verifier::ext_equal]
pub struct RuleSearchModel {
    pub settings: InferRules,
    pub bootstrapped: ProgramStateModel,
    pub instructions: Seq<Seq<char>>,
    pub rules: Seq<Seq<char>>,
    pub candidates: Seq<RuleCandidateModel>,
    pub best: Option<(Double, ProgramStateModel)>,
    pub stage: Stage,
}

impl DeepView for RuleSearch {
    type V = RuleSearchModel;

    open spec fn deep_view(&self) -> RuleSearchModel {
        RuleSearchModel {
            settings: self.settings,
            bootstrapped: self.bootstrapped.deep_view(),
            instructions: self.instructions.deep_view(),
            rules: self.rules.deep_view(),
            candidates: self.candidates.deep_view(),
            best: match self.best {
                Some((score, state)) => Some((score, state.deep_view())),
                None => None,
            },
            stage: self.stage,
        }
    }
}

/// The instructions of a program.
pub open spec fn instructions_of(program: Seq<PredictorModel>) -> Seq<Seq<char>> {
    Seq::new(program.len(), |p: int| program[p].signature.instructions)
}

/// A program with rules written for its first predictors, each under the instruction the predictor
/// started with. Nothing else of it changes.
pub open spec fn written(
    program: Seq<PredictorModel>,
    instructions: Seq<Seq<char>>,
    rules: Seq<Seq<char>>,
) -> Seq<PredictorModel> {
    Seq::new(
        program.len(),
        |p: int|
            if p < rules.len() {
                program[p].with_instructions(ruled(instructions[p], rules[p]))
            } else {
                program[p]
            },
    )
}

impl RuleSearchModel {
    /// The best score so far.
    pub open spec fn highest(self) -> Double {
        match self.best {
            Some((score, _)) => score,
            None => Double { bits: 0 },
        }
    }

    /// The stage once so many candidates were scored.
    pub open spec fn stage_after(self, done: nat) -> Stage {
        if done < self.settings.num_candidates {
            Stage::Starting
        } else {
            Stage::Done
        }
    }

    /// The student was put back, and the first predictor's rules are asked for.
    pub open spec fn started(self) -> RuleSearchModel {
        RuleSearchModel { rules: Seq::empty(), stage: Stage::Inducing { position: 0 }, ..self }
    }

    /// A predictor's rules were written.
    pub open spec fn induced(self, rules: Seq<char>) -> RuleSearchModel {
        match self.stage {
            Stage::Inducing { position } => RuleSearchModel {
                rules: self.rules.push(rules),
                stage: if position + 1 < self.instructions.len() {
                    Stage::Inducing { position: (position + 1) as usize }
                } else {
                    Stage::Scoring
                },
                ..self
            },
            _ => self,
        }
    }

    /// The candidate was scored. It becomes the best where it is the first or scored higher.
    pub open spec fn scored(self, program: Seq<PredictorModel>, score: Double) -> RuleSearchModel {
        RuleSearchModel {
            candidates: self.candidates.push(RuleCandidateModel { rules: self.rules, score }),
            best: if self.best is None || exceeds(score, self.highest()) {
                Some((score, saved_program(program)))
            } else {
                self.best
            },
            stage: self.stage_after(self.candidates.len() + 1),
            ..self
        }
    }

    /// The state the program is left in.
    pub open spec fn kept(self) -> ProgramStateModel {
        match self.best {
            Some((_, state)) => state,
            None => self.bootstrapped,
        }
    }

    /// What each candidate scored.
    pub open spec fn scores(self) -> Seq<Double> {
        Seq::new(self.candidates.len(), |i: int| self.candidates[i].score)
    }

    /// Whether a program is what the bootstrap left, put back onto one of its shape, with these
    /// rules written into it.
    pub open spec fn carries(self, program: Seq<PredictorModel>, rules: Seq<Seq<char>>) -> bool {
        exists|shape: Seq<PredictorModel>|
            {
                &&& shape.len() == self.instructions.len()
                &&& missing_names(shape, self.bootstrapped).len() == 0
                &&& program == written(
                    #[trigger] restored_program(shape, self.bootstrapped, Trust::Default),
                    self.instructions,
                    rules,
                )
            }
    }

    /// Whether a state is that of a program carrying this candidate's rules.
    pub open spec fn is_of_candidate(self, state: ProgramStateModel, candidate: int) -> bool {
        exists|program: Seq<PredictorModel>|
            state == #[trigger] saved_program(program) && self.carries(
                program,
                self.candidates[candidate].rules,
            )
    }

    /// What holds throughout: no more candidates than are to be made, each with one rule set per
    /// predictor, and the best is the program of the candidate the scores so far lead to.
    pub open spec fn well_formed(self) -> bool {
        let scores = self.scores();
        &&& self.candidates.len() <= self.settings.num_candidates
        &&& self.stage is Done ==> self.candidates.len() == self.settings.num_candidates
        &&& self.best is Some ==> self.is_of_candidate(self.kept(), leader(scores))
        &&& self.instructions.len() > 0
        &&& self.best is Some <==> self.candidates.len() > 0
        &&& self.best is Some ==> self.highest() == scores[leader(scores)]
        &&& self.candidates.len() > 0 ==> 0 <= leader(scores) < scores.len()
        &&& forall|i: int|
            0 <= i < self.candidates.len() ==> (#[trigger] self.candidates[i]).rules.len()
                == self.instructions.len()
        &&& match self.stage {
            Stage::Starting => self.candidates.len() < self.settings.num_candidates,
            Stage::Inducing { position } => position < self.instructions.len()
                && self.rules.len() == position && self.candidates.len()
                < self.settings.num_candidates,
            Stage::Scoring => self.rules.len() == self.instructions.len() && self.candidates.len()
                < self.settings.num_candidates,
            Stage::Done => true,
        }
    }
}

impl RuleSearch {
    /// A run over a bootstrapped student, refused where it has no predictor.
    pub fn begin(settings: InferRules, student: &Program) -> (r: Result<
        RuleSearch,
        NothingToInstruct,
    >)
        ensures
            match r {
                Ok(run) => {
                    &&& student.deep_view().len() > 0
                    &&& run.deep_view() == (RuleSearchModel {
                        settings,
                        bootstrapped: saved_program(student.deep_view()),
                        instructions: instructions_of(student.deep_view()),
                        rules: Seq::empty(),
                        candidates: Seq::empty(),
                        best: None,
                        stage: if settings.num_candidates > 0 {
                            Stage::Starting
                        } else {
                            Stage::Done
                        },
                    })
                    &&& run.deep_view().well_formed()
                },
                Err(_) => student.deep_view().len() == 0,
            },
    {
        if student.len() == 0 {
            return Err(NothingToInstruct);
        }
        let ghost model = student.deep_view();
        let mut instructions: Vec<String> = Vec::new();
        let mut p: usize = 0;
        while p < student.predictors.len()
            invariant
                p <= model.len(),
                model == student.deep_view(),
                instructions.deep_view() =~= instructions_of(model).take(p as int),
            decreases model.len() - p,
        {
            append(&mut instructions, student.predictors[p].signature.instructions.clone());
            p = p + 1;
        }
        proof {
            assert(instructions_of(model).take(p as int) =~= instructions_of(model));
        }
        let run = RuleSearch {
            settings,
            bootstrapped: student.dump_state(),
            instructions,
            rules: Vec::new(),
            candidates: Vec::new(),
            best: None,
            stage: if settings.num_candidates > 0 {
                Stage::Starting
            } else {
                Stage::Done
            },
        };
        proof {
            assert(run.rules.deep_view() =~= Seq::empty());
            assert(run.candidates.deep_view() =~= Seq::empty());
        }
        Ok(run)
    }

    /// Puts the student back to what the bootstrap left, for the next candidate.
    pub fn start_candidate(&mut self, student: &mut Program) -> (r: Result<(), MissingEntries>)
        requires
            old(self).deep_view().well_formed(),
            old(self).stage == Stage::Starting,
        ensures
            match r {
                Ok(()) => {
                    &&& missing_names(
                        old(student).deep_view(),
                        old(self).deep_view().bootstrapped,
                    ).len() == 0
                    &&& final(self).deep_view() == old(self).deep_view().started()
                    &&& final(student).deep_view() == restored_program(
                        old(student).deep_view(),
                        old(self).deep_view().bootstrapped,
                        Trust::Default,
                    )
                    &&& old(student).deep_view().len() == old(self).deep_view().instructions.len()
                        ==> final(self).deep_view().carries(
                        final(student).deep_view(),
                        final(self).deep_view().rules,
                    )
                },
                Err(_) => {
                    &&& missing_names(
                        old(student).deep_view(),
                        old(self).deep_view().bootstrapped,
                    ).len() > 0
                    &&& final(self).deep_view() == old(self).deep_view()
                    &&& final(student).deep_view() == old(student).deep_view()
                },
            },
            final(self).deep_view().well_formed(),
    {
        match student.put_back(&self.bootstrapped, Trust::Default) {
            Ok(()) => {
                self.rules = Vec::new();
                self.stage = Stage::Inducing { position: 0 };
                proof {
                    assert(self.rules.deep_view() =~= Seq::empty());
                    let now = self.deep_view();
                    let restored = restored_program(
                        old(student).deep_view(),
                        now.bootstrapped,
                        Trust::Default,
                    );
                    assert(written(restored, now.instructions, now.rules) =~= restored);
                }
                Ok(())
            },
            Err(missing) => Err(missing),
        }
    }

    /// A predictor's rules were written: they go under its own instruction, not under what an
    /// earlier candidate left. What the student carried before stays.
    pub fn induced(&mut self, student: &mut Program, rules: String)
        requires
            old(self).deep_view().well_formed(),
            old(self).stage is Inducing,
            old(student).deep_view().len() == old(self).deep_view().instructions.len(),
        ensures
            final(self).deep_view() == old(self).deep_view().induced(rules@),
            final(self).deep_view().well_formed(),
            old(self).deep_view().carries(old(student).deep_view(), old(self).deep_view().rules)
                ==> final(self).deep_view().carries(
                final(student).deep_view(),
                final(self).deep_view().rules,
            ),
            final(student).deep_view() == old(student).deep_view().update(
                old(self).stage->position as int,
                old(student).deep_view()[old(self).stage->position as int].with_instructions(
                    ruled(
                        old(self).deep_view().instructions[old(self).stage->position as int],
                        rules@,
                    ),
                ),
            ),
    {
        if let Stage::Inducing { position } = self.stage {
            let written = with_rules(self.instructions[position].as_str(), rules.as_str());
            student.set_instruction(position, written.as_str());
            let ghost latest = rules@;
            append(&mut self.rules, rules);
            let count: usize = self.instructions.len();
            self.stage =
            if position + 1 < count {
                Stage::Inducing { position: position + 1 }
            } else {
                Stage::Scoring
            };
            proof {
                if old(self).deep_view().carries(
                    old(student).deep_view(),
                    old(self).deep_view().rules,
                ) {
                    law_written_rules_stay_in_place(
                        old(self).deep_view(),
                        old(student).deep_view(),
                        latest,
                    );
                }
            }
        }
    }

    /// The candidate was scored.
    pub fn scored(&mut self, student: &Program, score: Double)
        requires
            old(self).deep_view().well_formed(),
            old(self).stage == Stage::Scoring,
            old(self).deep_view().carries(student.deep_view(), old(self).deep_view().rules),
        ensures
            final(self).deep_view() == old(self).deep_view().scored(student.deep_view(), score),
            final(self).deep_view().well_formed(),
    {
        let ghost was = self.deep_view();
        let ghost scores = was.scores();
        let better = match &self.best {
            Some((seen, _)) => score.exceeds(*seen),
            None => true,
        };
        if better {
            self.best = Some((score, student.dump_state()));
        }
        append(&mut self.candidates, RuleCandidate { rules: self.rules.duplicate(), score });
        self.stage =
        if self.candidates.len() < self.settings.num_candidates {
            Stage::Starting
        } else {
            Stage::Done
        };
        proof {
            let now = self.deep_view();
            let after = now.scores();
            assert(after.drop_last() =~= scores);
            assert(after.last() == score);
            assert(now.candidates.last().rules == was.rules);
            assert(now.bootstrapped == was.bootstrapped && now.instructions == was.instructions);
            if better {
                assert(leader(after) == after.len() - 1);
                assert(now.carries(student.deep_view(), was.rules));
                assert(saved_program(student.deep_view()) == now.kept());
            } else {
                assert(leader(after) == leader(scores));
                assert(now.candidates[leader(scores)] == was.candidates[leader(scores)]);
                let program = choose|program: Seq<PredictorModel>|
                    was.kept() == #[trigger] saved_program(program) && was.carries(
                        program,
                        was.candidates[leader(scores)].rules,
                    );
                assert(now.carries(program, now.candidates[leader(scores)].rules));
                assert(saved_program(program) == now.kept());
            }
        }
    }

    /// Leaves the student on the best candidate's program, or on the bootstrap's where none was
    /// made, and hands back every candidate in the order they were built.
    pub fn finish(self, student: &mut Program) -> (r: Result<Vec<RuleCandidate>, MissingEntries>)
        ensures
            match r {
                Ok(candidates) => {
                    &&& missing_names(old(student).deep_view(), self.deep_view().kept()).len() == 0
                    &&& candidates.deep_view() == self.deep_view().candidates
                    &&& final(student).deep_view() == restored_program(
                        old(student).deep_view(),
                        self.deep_view().kept(),
                        Trust::Default,
                    )
                },
                Err(_) => {
                    &&& missing_names(old(student).deep_view(), self.deep_view().kept()).len() > 0
                    &&& final(student).deep_view() == old(student).deep_view()
                },
            },
    {
        let loaded = match &self.best {
            Some((_, state)) => student.put_back(state, Trust::Default),
            None => student.put_back(&self.bootstrapped, Trust::Default),
        };
        match loaded {
            Ok(()) => Ok(self.candidates),
            Err(missing) => Err(missing),
        }
    }
}

/// Rules are appended to the instruction a predictor started with, so a candidate carries no rule
/// of an earlier one: what a candidate writes depends on its own rules alone.
pub proof fn law_rules_do_not_accumulate(
    run: RuleSearchModel,
    program: Seq<PredictorModel>,
    score: Double,
    rules: Seq<char>,
)
    ensures
        run.scored(program, score).instructions == run.instructions,
        run.induced(rules).instructions == run.instructions,
        run.started().instructions == run.instructions,
        run.started().rules == Seq::<Seq<char>>::empty(),
{
}

/// An odd trainset leaves the larger half for scoring, and halving loses no row.
pub proof fn law_halving_loses_nothing(rows: Seq<ExampleModel>)
    ensures
        rows.take(rows.len() as int / 2) + rows.skip(rows.len() as int / 2) == rows,
        rows.take(rows.len() as int / 2).len() <= rows.skip(rows.len() as int / 2).len(),
{
    let half = rows.len() as int / 2;
    assert(rows.take(half) + rows.skip(half) =~= rows);
}

/// A run that is over made as many candidates as it was to make, and leaves the student on the
/// program of the candidate that no other exceeded, the earliest of such: what the bootstrap left,
/// each predictor with that candidate's rules under its own instruction.
pub proof fn law_a_finished_run_keeps_the_leading_rules(run: RuleSearchModel, i: int)
    requires
        run.well_formed(),
        run.stage is Done,
        0 <= i < run.candidates.len(),
    ensures
        run.candidates.len() == run.settings.num_candidates,
        0 <= leader(run.scores()) < run.candidates.len(),
        run.is_of_candidate(run.kept(), leader(run.scores())),
        !exceeds(run.candidates[i].score, run.candidates[leader(run.scores())].score),
{
    law_the_leader_is_the_first_highest(run.scores(), i);
}

/// What is written for a later predictor leaves an earlier one's rules in place, and the rest of
/// the program as the bootstrap left it.
pub proof fn law_written_rules_stay_in_place(
    run: RuleSearchModel,
    program: Seq<PredictorModel>,
    rules: Seq<char>,
)
    requires
        run.well_formed(),
        run.stage is Inducing,
        run.carries(program, run.rules),
    ensures
        ({
            let at = run.stage->position as int;
            let next = program.update(
                at,
                program[at].with_instructions(ruled(run.instructions[at], rules)),
            );
            run.induced(rules).carries(next, run.induced(rules).rules)
        }),
{
    let at = run.stage->position as int;
    let next = program.update(
        at,
        program[at].with_instructions(ruled(run.instructions[at], rules)),
    );
    let now = run.induced(rules);
    let shape = choose|shape: Seq<PredictorModel>|
        {
            &&& shape.len() == run.instructions.len()
            &&& missing_names(shape, run.bootstrapped).len() == 0
            &&& program == written(
                #[trigger] restored_program(shape, run.bootstrapped, Trust::Default),
                run.instructions,
                run.rules,
            )
        };
    let restored = restored_program(shape, now.bootstrapped, Trust::Default);
    assert(next =~= written(restored, now.instructions, now.rules));
}

/// A candidate has its own rules under each predictor's own instruction, and the demos that the
/// bootstrap left each predictor.
pub proof fn law_a_candidate_keeps_the_bootstrapped_demos(
    run: RuleSearchModel,
    program: Seq<PredictorModel>,
    rules: Seq<Seq<char>>,
    p: int,
)
    requires
        run.carries(program, rules),
        rules.len() == run.instructions.len(),
        0 <= p < program.len(),
    ensures
        program.len() == run.instructions.len(),
        program[p].signature.instructions == ruled(run.instructions[p], rules[p]),
        run.bootstrapped.get(program[p].name) is Some,
        Seq::new(program[p].demos.len(), |d: int| program[p].demos[d].fields)
            == run.bootstrapped.get(program[p].name)->0.demos,
{
    let shape = choose|shape: Seq<PredictorModel>|
        {
            &&& shape.len() == run.instructions.len()
            &&& missing_names(shape, run.bootstrapped).len() == 0
            &&& program == written(
                #[trigger] restored_program(shape, run.bootstrapped, Trust::Default),
                run.instructions,
                rules,
            )
        };
    lemma_none_missing(shape, run.bootstrapped, p);
    assert(Seq::new(program[p].demos.len(), |d: int| program[p].demos[d].fields)
        =~= run.bootstrapped.get(program[p].name)->0.demos);
}

/// An instruction with rules under it opens with the instruction and ends with the rules, whole.
pub proof fn law_rules_follow_the_whole_instruction(instructions: Seq<char>, rules: Seq<char>)
    ensures
        ({
            let all = ruled(instructions, rules);
            &&& all.len() >= instructions.len() + rules.len()
            &&& all.take(instructions.len() as int) == instructions
            &&& all.skip(all.len() - rules.len()) == rules
            &&& all == instructions
                + "\n\nPlease adhere to the following rules when making your prediction:\n"@ + rules
        }),
{
    let all = ruled(instructions, rules);
    assert(all.take(instructions.len() as int) =~= instructions);
    assert(all.skip(all.len() - rules.len()) =~= rules);
}

/// A model induces rules from every row, in order, and is shown of each row every field the signature
/// has, as an input or else as an output: a field more is a line more under one of the two, or none.
pub proof fn law_every_row_and_field_is_shown(
    rows: Seq<Seq<(Seq<char>, Seq<char>)>>,
    row: Seq<(Seq<char>, Seq<char>)>,
    field: (Seq<char>, Seq<char>),
    signature: SignatureModel,
)
    ensures
        ({
            let asked = names_of(signature.inputs);
            let answered = names_of(signature.outputs);
            let none = Seq::<Seq<char>>::empty();
            let line = field.0 + ": "@ + field.1;
            let longer = row.push(field);
            &&& rows_text(Seq::empty(), signature).len() == 0
            &&& rows_text(rows.push(row), signature) == rows_text(rows, signature) + row_text(
                row,
                signature,
            )
            &&& row_text(row, signature) == "Input Fields:\n"@ + joined(
                lines_of(row, asked, none),
                "\n"@,
            ) + "\n\n=========\nOutput Fields:\n"@ + joined(
                lines_of(row, answered, asked),
                "\n"@,
            ) + "\n\n"@
            &&& lines_of(Seq::empty(), asked, none).len() == 0
            &&& lines_of(longer, asked, none) == if asked.contains(field.0) {
                lines_of(row, asked, none).push(line)
            } else {
                lines_of(row, asked, none)
            }
            &&& lines_of(longer, answered, asked) == if answered.contains(field.0)
                && !asked.contains(field.0) {
                lines_of(row, answered, asked).push(line)
            } else {
                lines_of(row, answered, asked)
            }
        }),
{
    assert(rows.push(row).drop_last() =~= rows);
    assert(row.push(field).drop_last() =~= row);
}

/// Every candidate is on record with the rules it carried and what it scored, in the order they were
/// built, and the run goes on until as many were made as were asked for.
pub proof fn law_every_candidate_is_on_record(
    run: RuleSearchModel,
    program: Seq<PredictorModel>,
    score: Double,
    rules: Seq<char>,
)
    requires
        run.well_formed(),
    ensures
        run.scored(program, score).candidates == run.candidates.push(
            RuleCandidateModel { rules: run.rules, score },
        ),
        run.scored(program, score).bootstrapped == run.bootstrapped,
        run.scored(program, score).stage is Done <==> run.candidates.len() + 1
            >= run.settings.num_candidates,
        !(run.scored(program, score).stage is Done) ==> run.scored(program, score).stage
            == Stage::Starting,
        run.stage is Inducing ==> run.induced(rules).rules == run.rules.push(rules),
        run.stage is Inducing ==> (run.induced(rules).stage == Stage::Scoring
            <==> run.rules.len() + 1 == run.instructions.len()),
{
}

} // verus!
