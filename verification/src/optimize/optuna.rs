//! Bootstrapping once, and then searching for the one demo each predictor does best with.
//!
//! The search space is one position per predictor, among the demos the bootstrap earned it. Which
//! positions a trial tries is up to a sampler; what a trial is made of, which trial is kept and
//! what the program is left as is decided here.
use vstd::prelude::*;
use vstd::string::StringExecFns;
use crate::double::{exceeds, Double};
use crate::duplicate::{append, Duplicate};
use crate::example::{Example, ExampleModel};
use crate::module::state::{
    lemma_none_missing, missing_names, restored_program, saved_program, MissingEntries,
    ProgramState, ProgramStateModel,
};
use crate::module::trust::Trust;
use crate::optimize::bootstrap::{configured, BootstrapFewShot};
use crate::optimize::leader::{law_the_leader_is_the_first_highest, leader};
use crate::optimize::scoring::{default_scoring, Scoring};
use crate::program::{PredictorModel, Program};
use crate::text::{shown_name, show_name};

verus! {

/// One trial: the demo each predictor kept, and what the program scored.
#[derive(Debug)]
pub struct OptunaTrial {
    /// One position per predictor.
    pub indices: Vec<usize>,
    pub score: Double,
}

/// What an [`OptunaTrial`] holds.
#[verifier::ext_equal]
pub struct OptunaTrialModel {
    pub indices: Seq<usize>,
    pub score: Double,
}

impl DeepView for OptunaTrial {
    type V = OptunaTrialModel;

    open spec fn deep_view(&self) -> OptunaTrialModel {
        OptunaTrialModel { indices: self.indices@, score: self.score }
    }
}

/// The settings of a search.
#[derive(Clone, Copy, Debug, PartialEq, Eq, Structural)]
pub struct BootstrapFewShotWithOptuna {
    pub max_labeled_demos: usize,
    pub max_rounds: usize,
    pub num_candidate_programs: usize,
    /// The sampler's seed.
    pub seed: u32,
    pub scoring: Scoring,
}

/// Sixteen labelled demos, one round, sixteen trials.
pub open spec fn default_optuna() -> BootstrapFewShotWithOptuna {
    BootstrapFewShotWithOptuna {
        max_labeled_demos: 16,
        max_rounds: 1,
        num_candidate_programs: 16,
        seed: 0,
        scoring: default_scoring(),
    }
}

impl BootstrapFewShotWithOptuna {
    /// Sixteen labelled demos, one round, sixteen trials.
    pub fn new() -> (r: BootstrapFewShotWithOptuna)
        ensures
            r == default_optuna(),
    {
        BootstrapFewShotWithOptuna {
            max_labeled_demos: 16,
            max_rounds: 1,
            num_candidate_programs: 16,
            seed: 0,
            scoring: Scoring::default(),
        }
    }

    pub fn max_labeled_demos(self, max_labeled_demos: usize) -> (r: BootstrapFewShotWithOptuna)
        ensures
            r == (BootstrapFewShotWithOptuna { max_labeled_demos, ..self }),
    {
        BootstrapFewShotWithOptuna { max_labeled_demos, ..self }
    }

    pub fn max_rounds(self, max_rounds: usize) -> (r: BootstrapFewShotWithOptuna)
        ensures
            r == (BootstrapFewShotWithOptuna { max_rounds, ..self }),
    {
        BootstrapFewShotWithOptuna { max_rounds, ..self }
    }

    /// How many trials are run.
    pub fn num_candidate_programs(self, num_candidate_programs: usize) -> (r:
        BootstrapFewShotWithOptuna)
        ensures
            r == (BootstrapFewShotWithOptuna { num_candidate_programs, ..self }),
    {
        BootstrapFewShotWithOptuna { num_candidate_programs, ..self }
    }

    /// The sampler's seed.
    pub fn seed(self, seed: u32) -> (r: BootstrapFewShotWithOptuna)
        ensures
            r == (BootstrapFewShotWithOptuna { seed, ..self }),
    {
        BootstrapFewShotWithOptuna { seed, ..self }
    }

    pub fn scoring(self, scoring: Scoring) -> (r: BootstrapFewShotWithOptuna)
        ensures
            r == (BootstrapFewShotWithOptuna { scoring, ..self }),
    {
        BootstrapFewShotWithOptuna { scoring, ..self }
    }

    /// The bootstrap that earns the demos, asking for so many.
    pub fn bootstrap(&self, max_demos: usize) -> (r: BootstrapFewShot)
        ensures
            r == (BootstrapFewShot {
                max_bootstrapped_demos: max_demos,
                max_labeled_demos: self.max_labeled_demos,
                max_rounds: self.max_rounds,
                ..configured(true)
            }),
    {
        BootstrapFewShot {
            max_bootstrapped_demos: max_demos,
            max_labeled_demos: self.max_labeled_demos,
            max_rounds: self.max_rounds,
            ..BootstrapFewShot::new()
        }
    }
}

/// A predictor the bootstrap earned no demos for.
#[derive(Debug)]
pub struct NothingEarned {
    pub predictor: String,
}

impl NothingEarned {
    /// The refusal in words.
    pub fn message(&self) -> (r: String)
        ensures
            r@ == "predictor "@ + shown_name(self.predictor@)
                + " earned no demos to choose between; optuna cannot search an empty range. Raise `max_demos`, or give the bootstrap a trainset it can solve."@,
    {
        let mut r: String = "predictor ".to_owned();
        r.append(show_name(self.predictor.as_str()).as_str());
        r.append(
            " earned no demos to choose between; optuna cannot search an empty range. Raise `max_demos`, or give the bootstrap a trainset it can solve.",
        );
        r
    }
}

/// The demos each predictor may choose from.
pub open spec fn offered_in(program: Seq<PredictorModel>) -> Seq<Seq<ExampleModel>> {
    Seq::new(program.len(), |p: int| program[p].demos)
}

/// The first predictor with nothing to choose from, or their number where each has something.
pub open spec fn first_bare(program: Seq<PredictorModel>) -> int
    decreases program.len(),
{
    if program.len() == 0 || program[0].demos.len() == 0 {
        0
    } else {
        1 + first_bare(program.skip(1))
    }
}

/// A program in which each predictor is taught the one demo at its position.
pub open spec fn taught(
    program: Seq<PredictorModel>,
    offered: Seq<Seq<ExampleModel>>,
    indices: Seq<usize>,
) -> Seq<PredictorModel> {
    Seq::new(
        program.len(),
        |p: int| program[p].with_demos(seq![offered[p][indices[p] as int]]),
    )
}

/// A search in progress.
#[derive(Debug)]
pub struct OptunaSearch {
    pub settings: BootstrapFewShotWithOptuna,
    /// The program before the bootstrap, which every trial starts from.
    pub start: ProgramState,
    /// The program as the bootstrap left it.
    pub compiled: ProgramState,
    pub offered: Vec<Vec<Example>>,
    pub trials: Vec<OptunaTrial>,
    /// The best trial's program and score.
    pub best: Option<(Double, ProgramState)>,
}

/// What an [`OptunaSearch`] holds.
#[verifier::ext_equal]
pub struct OptunaModel {
    pub settings: BootstrapFewShotWithOptuna,
    pub start: ProgramStateModel,
    pub compiled: ProgramStateModel,
    pub offered: Seq<Seq<ExampleModel>>,
    pub trials: Seq<OptunaTrialModel>,
    pub best: Option<(Double, ProgramStateModel)>,
}

impl DeepView for OptunaSearch {
    type V = OptunaModel;

    open spec fn deep_view(&self) -> OptunaModel {
        OptunaModel {
            settings: self.settings,
            start: self.start.deep_view(),
            compiled: self.compiled.deep_view(),
            offered: self.offered.deep_view(),
            trials: self.trials.deep_view(),
            best: match self.best {
                Some((score, state)) => Some((score, state.deep_view())),
                None => None,
            },
        }
    }
}

impl OptunaModel {
    /// The best score so far.
    pub open spec fn highest(self) -> Double {
        match self.best {
            Some((score, _)) => score,
            None => Double { bits: 0 },
        }
    }

    /// Whether these positions pick one demo for each predictor.
    pub open spec fn picks(self, indices: Seq<usize>) -> bool {
        &&& indices.len() == self.offered.len()
        &&& forall|p: int|
            0 <= p < indices.len() ==> #[trigger] indices[p] < self.offered[p].len()
    }

    /// A trial was scored. It becomes the best where nothing was tried before or it scored higher.
    pub open spec fn scored(
        self,
        program: Seq<PredictorModel>,
        indices: Seq<usize>,
        score: Double,
    ) -> OptunaModel {
        OptunaModel {
            trials: self.trials.push(OptunaTrialModel { indices, score }),
            best: if self.best is None || exceeds(score, self.highest()) {
                Some((score, saved_program(program)))
            } else {
                self.best
            },
            ..self
        }
    }

    /// The state the program is left in: the best trial's, or the bootstrap's where none was run.
    pub open spec fn kept(self) -> ProgramStateModel {
        match self.best {
            Some((_, state)) => state,
            None => self.compiled,
        }
    }

    /// What each trial scored.
    pub open spec fn scores(self) -> Seq<Double> {
        Seq::new(self.trials.len(), |i: int| self.trials[i].score)
    }

    /// Whether a program is what these positions make: the program before the bootstrap, put back
    /// onto one of its shape, in which each predictor is taught the one demo at its position.
    pub open spec fn makes(self, indices: Seq<usize>, program: Seq<PredictorModel>) -> bool {
        exists|shape: Seq<PredictorModel>|
            {
                &&& shape.len() == self.offered.len()
                &&& missing_names(shape, self.start).len() == 0
                &&& program == taught(
                    #[trigger] restored_program(shape, self.start, Trust::Default),
                    self.offered,
                    indices,
                )
            }
    }

    /// Whether a state is that of the program this trial made.
    pub open spec fn is_of_trial(self, state: ProgramStateModel, trial: int) -> bool {
        exists|program: Seq<PredictorModel>|
            state == #[trigger] saved_program(program) && self.makes(
                self.trials[trial].indices,
                program,
            )
    }

    /// What holds throughout: no more trials than are to be run, each choosing a demo for every
    /// predictor, and the best is the program of the trial the scores so far lead to.
    pub open spec fn well_formed(self) -> bool {
        let scores = self.scores();
        &&& self.trials.len() <= self.settings.num_candidate_programs
        &&& forall|i: int| 0 <= i < self.trials.len() ==> self.picks((#[trigger] self.trials[i]).indices)
        &&& self.best is Some ==> self.is_of_trial(self.kept(), leader(scores))
        &&& self.best is Some <==> self.trials.len() > 0
        &&& self.best is Some ==> self.highest() == scores[leader(scores)]
        &&& self.trials.len() > 0 ==> 0 <= leader(scores) < scores.len()
    }
}

proof fn lemma_first_bare(program: Seq<PredictorModel>)
    ensures
        0 <= first_bare(program) <= program.len(),
        forall|p: int|
            0 <= p < first_bare(program) ==> (#[trigger] program[p]).demos.len() > 0,
        first_bare(program) < program.len() ==> program[first_bare(program)].demos.len() == 0,
    decreases program.len(),
{
    if program.len() > 0 && program[0].demos.len() > 0 {
        let rest = program.skip(1);
        lemma_first_bare(rest);
        assert forall|p: int| 0 <= p < first_bare(program) implies (
        #[trigger] program[p]).demos.len() > 0 by {
            if p > 0 {
                assert(rest[p - 1] == program[p]);
            }
        }
    }
}

impl OptunaSearch {
    /// A search over the demos a bootstrap left in the student; `start` is the program as it was
    /// before. It is refused where a predictor has nothing to choose from.
    pub fn begin(
        settings: BootstrapFewShotWithOptuna,
        start: ProgramState,
        student: &Program,
    ) -> (r: Result<OptunaSearch, NothingEarned>)
        ensures
            match r {
                Ok(search) => {
                    &&& first_bare(student.deep_view()) == student.deep_view().len()
                    &&& search.deep_view() == (OptunaModel {
                        settings,
                        start: start.deep_view(),
                        compiled: saved_program(student.deep_view()),
                        offered: offered_in(student.deep_view()),
                        trials: Seq::empty(),
                        best: None,
                    })
                    &&& search.deep_view().well_formed()
                },
                Err(refused) => {
                    &&& first_bare(student.deep_view()) < student.deep_view().len()
                    &&& refused.predictor@ == student.deep_view()[first_bare(
                        student.deep_view(),
                    )].name
                },
            },
    {
        let ghost model = student.deep_view();
        let mut offered: Vec<Vec<Example>> = Vec::new();
        let mut p: usize = 0;
        proof {
            assert(model.skip(0) =~= model);
        }
        while p < student.predictors.len()
            invariant
                p <= model.len(),
                model == student.deep_view(),
                first_bare(model) == p + first_bare(model.skip(p as int)),
                offered.deep_view() =~= offered_in(model).take(p as int),
            decreases model.len() - p,
        {
            proof {
                assert(model.skip(p as int).skip(1) =~= model.skip(p + 1));
                assert(model.skip(p as int)[0] == student.predictors@[p as int].deep_view());
                assert(model[p as int] == student.predictors@[p as int].deep_view());
            }
            if student.predictors[p].demos.len() == 0 {
                return Err(NothingEarned { predictor: student.predictors[p].name.clone() });
            }
            append(&mut offered, student.predictors[p].demos.duplicate());
            p = p + 1;
        }
        proof {
            assert(offered_in(model).take(p as int) =~= offered_in(model));
            assert(model.skip(p as int).len() == 0);
        }
        let trials: Vec<OptunaTrial> = Vec::new();
        proof {
            assert(trials.deep_view() =~= Seq::empty());
        }
        Ok(
            OptunaSearch {
                settings,
                start,
                compiled: student.dump_state(),
                offered,
                trials,
                best: None,
            },
        )
    }

    /// How many demos each predictor chooses among.
    pub fn ranges(&self) -> (r: Vec<usize>)
        ensures
            r@.len() == self.deep_view().offered.len(),
            forall|p: int|
                0 <= p < r@.len() ==> #[trigger] r@[p] == self.deep_view().offered[p].len(),
    {
        let mut r: Vec<usize> = Vec::new();
        while r.len() < self.offered.len()
            invariant
                r@.len() <= self.offered@.len(),
                forall|p: int|
                    0 <= p < r@.len() ==> #[trigger] r@[p] == self.deep_view().offered[p].len(),
            decreases self.offered@.len() - r@.len(),
        {
            let p: usize = r.len();
            proof {
                assert(self.deep_view().offered[p as int] == self.offered@[p as int].deep_view());
            }
            r.push(self.offered[p].len());
        }
        r
    }

    /// Whether another trial is to be run.
    pub fn goes_on(&self) -> (r: bool)
        ensures
            r == (self.deep_view().trials.len() < self.settings.num_candidate_programs),
    {
        self.trials.len() < self.settings.num_candidate_programs
    }

    /// Makes the student the program of one trial: the program before the bootstrap, each
    /// predictor taught the one demo at its position.
    pub fn prepare(&self, student: &mut Program, indices: &Vec<usize>) -> (r: Result<
        (),
        MissingEntries,
    >)
        requires
            self.deep_view().picks(indices@),
            old(student).deep_view().len() == self.deep_view().offered.len(),
        ensures
            match r {
                Ok(()) => {
                    &&& missing_names(old(student).deep_view(), self.deep_view().start).len() == 0
                    &&& final(student).deep_view() == taught(
                        restored_program(
                            old(student).deep_view(),
                            self.deep_view().start,
                            Trust::Default,
                        ),
                        self.deep_view().offered,
                        indices@,
                    )
                    &&& self.deep_view().makes(indices@, final(student).deep_view())
                },
                Err(_) => {
                    &&& missing_names(old(student).deep_view(), self.deep_view().start).len() > 0
                    &&& final(student).deep_view() == old(student).deep_view()
                },
            },
    {
        match student.put_back(&self.start, Trust::Default) {
            Err(missing) => Err(missing),
            Ok(()) => {
                let ghost restored = student.deep_view();
                let ghost offered = self.deep_view().offered;
                let ghost all = taught(restored, offered, indices@);
                let mut p: usize = 0;
                while p < student.len()
                    invariant
                        p <= restored.len(),
                        student.deep_view().len() == restored.len(),
                        restored.len() == offered.len(),
                        offered == self.deep_view().offered,
                        self.deep_view().picks(indices@),
                        all == taught(restored, offered, indices@),
                        forall|q: int|
                            0 <= q < restored.len() ==> student.deep_view()[q] == (if q < p {
                                all[q]
                            } else {
                                restored[q]
                            }),
                    decreases restored.len() - p,
                {
                    let mut one: Vec<Example> = Vec::new();
                    proof {
                        assert(offered[p as int] == self.offered@[p as int].deep_view());
                        assert(indices@[p as int] < offered[p as int].len());
                    }
                    append(&mut one, self.offered[p][indices[p]].duplicate());
                    proof {
                        assert(one.deep_view() =~= seq![
                            offered[p as int][indices@[p as int] as int],
                        ]);
                    }
                    student.set_demos(p, one);
                    p = p + 1;
                }
                proof {
                    assert(student.deep_view() =~= all);
                }
                Ok(())
            },
        }
    }

    /// The student, as one trial made it, was scored.
    pub fn scored(&mut self, student: &Program, indices: Vec<usize>, score: Double)
        requires
            old(self).deep_view().well_formed(),
            old(self).deep_view().trials.len() < old(self).settings.num_candidate_programs,
            old(self).deep_view().picks(indices@),
            old(self).deep_view().makes(indices@, student.deep_view()),
        ensures
            final(self).deep_view() == old(self).deep_view().scored(
                student.deep_view(),
                indices@,
                score,
            ),
            final(self).deep_view().well_formed(),
    {
        let ghost was = self.deep_view();
        let ghost scores = was.scores();
        let better = match &self.best {
            Some((seen, _)) => score.exceeds(*seen),
            None => true,
        };
        if better {
            self.best = Some((score, student.dump_state()));
        }
        append(&mut self.trials, OptunaTrial { indices, score });
        proof {
            let now = self.deep_view();
            let after = now.scores();
            assert(after.drop_last() =~= scores);
            assert(after.last() == score);
            assert(now.trials.last().indices == indices@);
            assert(now.start == was.start && now.offered == was.offered);
            if better {
                assert(leader(after) == after.len() - 1);
                assert(now.makes(indices@, student.deep_view()));
                assert(saved_program(student.deep_view()) == now.kept());
            } else {
                assert(leader(after) == leader(scores));
                assert(now.trials[leader(scores)] == was.trials[leader(scores)]);
                let program = choose|program: Seq<PredictorModel>|
                    was.kept() == #[trigger] saved_program(program) && was.makes(
                        was.trials[leader(scores)].indices,
                        program,
                    );
                assert(now.makes(now.trials[leader(scores)].indices, program));
                assert(saved_program(program) == now.kept());
            }
            assert forall|i: int| 0 <= i < now.trials.len() implies now.picks(
                (#[trigger] now.trials[i]).indices,
            ) by {
                if i < was.trials.len() {
                    assert(was.picks(was.trials[i].indices));
                }
            }
        }
    }

    /// Leaves the student on the best trial's program, or on the bootstrap's where no trial was
    /// run, and hands back every trial in the order they ran.
    pub fn finish(self, student: &mut Program) -> (r: Result<Vec<OptunaTrial>, MissingEntries>)
        ensures
            match r {
                Ok(trials) => {
                    &&& missing_names(old(student).deep_view(), self.deep_view().kept()).len() == 0
                    &&& trials.deep_view() == self.deep_view().trials
                    &&& final(student).deep_view() == restored_program(
                        old(student).deep_view(),
                        self.deep_view().kept(),
                        Trust::Default,
                    )
                },
                Err(_) => {
                    &&& missing_names(old(student).deep_view(), self.deep_view().kept()).len() > 0
                    &&& final(student).deep_view() == old(student).deep_view()
                },
            },
    {
        let loaded = match &self.best {
            Some((_, state)) => student.put_back(state, Trust::Default),
            None => student.put_back(&self.compiled, Trust::Default),
        };
        match loaded {
            Ok(()) => Ok(self.trials),
            Err(missing) => Err(missing),
        }
    }
}

/// A search begins exactly where every predictor earned a demo.
pub proof fn law_every_predictor_has_a_choice(program: Seq<PredictorModel>)
    ensures
        first_bare(program) == program.len() <==> forall|p: int|
            0 <= p < program.len() ==> (#[trigger] program[p]).demos.len() > 0,
{
    lemma_first_bare(program);
    if first_bare(program) < program.len() {
        assert(program[first_bare(program)].demos.len() == 0);
    }
}

/// Every trial keeps exactly one demo per predictor, one that the bootstrap earned it, and changes
/// nothing else of the program it starts from.
pub proof fn law_a_trial_keeps_one_demo_each(
    search: OptunaModel,
    program: Seq<PredictorModel>,
    indices: Seq<usize>,
    p: int,
)
    requires
        search.picks(indices),
        program.len() == search.offered.len(),
        0 <= p < program.len(),
    ensures
        taught(program, search.offered, indices)[p].demos.len() == 1,
        search.offered[p].contains(taught(program, search.offered, indices)[p].demos[0]),
        taught(program, search.offered, indices)[p].with_demos(program[p].demos) == program[p],
{
    assert(indices[p] < search.offered[p].len());
}

/// What a trial makes has the instructions of the program before the bootstrap, whatever the
/// bootstrap or an earlier trial left, and of the bootstrap only the one demo at each position.
pub proof fn law_a_trial_starts_from_the_program_before_the_bootstrap(
    search: OptunaModel,
    indices: Seq<usize>,
    program: Seq<PredictorModel>,
    p: int,
)
    requires
        search.makes(indices, program),
        0 <= p < program.len(),
    ensures
        program.len() == search.offered.len(),
        search.start.get(program[p].name) is Some,
        program[p].signature.instructions == search.start.get(
            program[p].name,
        )->0.signature.instructions,
        program[p].demos == seq![search.offered[p][indices[p] as int]],
{
    let shape = choose|shape: Seq<PredictorModel>|
        {
            &&& shape.len() == search.offered.len()
            &&& missing_names(shape, search.start).len() == 0
            &&& program == taught(
                #[trigger] restored_program(shape, search.start, Trust::Default),
                search.offered,
                indices,
            )
        };
    lemma_none_missing(shape, search.start, p);
}

/// A search that is over ran as many trials as it was to run, and leaves the student on the program
/// of the trial that no other exceeded, the earliest of such: the program before the bootstrap,
/// each predictor with the demo that trial chose for it.
pub proof fn law_a_finished_search_keeps_the_leading_trial(search: OptunaModel, i: int)
    requires
        search.well_formed(),
        search.trials.len() >= search.settings.num_candidate_programs,
        0 <= i < search.trials.len(),
    ensures
        search.trials.len() == search.settings.num_candidate_programs,
        0 <= leader(search.scores()) < search.trials.len(),
        search.is_of_trial(search.kept(), leader(search.scores())),
        !exceeds(search.trials[i].score, search.trials[leader(search.scores())].score),
{
    law_the_leader_is_the_first_highest(search.scores(), i);
}

/// Every trial is on record with its positions and its score, in order, and the demos on offer are
/// all those the bootstrap left each predictor.
pub proof fn law_every_trial_is_on_record(
    search: OptunaModel,
    program: Seq<PredictorModel>,
    indices: Seq<usize>,
    score: Double,
    p: int,
)
    ensures
        search.scored(program, indices, score).trials == search.trials.push(
            OptunaTrialModel { indices, score },
        ),
        search.scored(program, indices, score).start == search.start,
        search.scored(program, indices, score).offered == search.offered,
        search.best is None ==> search.kept() == search.compiled,
        offered_in(program).len() == program.len(),
        0 <= p < program.len() ==> offered_in(program)[p] == program[p].demos,
{
}

/// The predictor without a choice that is reported is the first: every one before it has demos, and
/// it has none.
pub proof fn law_the_first_without_a_choice_is_reported(program: Seq<PredictorModel>, p: int)
    ensures
        0 <= first_bare(program) <= program.len(),
        0 <= p < first_bare(program) ==> program[p].demos.len() > 0,
        first_bare(program) < program.len() ==> program[first_bare(program)].demos.len() == 0,
    decreases program.len(),
{
    if program.len() > 0 && program[0].demos.len() > 0 {
        let rest = program.skip(1);
        law_the_first_without_a_choice_is_reported(rest, p - 1);
        if p > 0 && p < first_bare(program) {
            assert(rest[p - 1] == program[p]);
        }
    }
}

} // verus!
