//! Bootstrapping several times, each time with the trainset shuffled differently and a different
//! number of demos asked for, and keeping the best.
//!
//! The first three attempts are not random at all: the program without demos, labelled demos only,
//! and one bootstrap over the trainset as it stands.
use vstd::prelude::*;
use vstd::string::StringExecFns;
use crate::double::{is_nan, reaches, Double};
use crate::duplicate::{append, Duplicate};
use crate::example::Example;
use crate::module::state::{
    missing_names, restored_program, saved_program, saved_submodules, MissingEntries, ProgramState,
    ProgramStateModel, SubmoduleModel,
};
use crate::module::trust::Trust;
use crate::optimize::bootstrap::{configured, BootstrapFewShot};
use crate::optimize::draw::{is_sample, pick, picked};
use crate::optimize::labeled::LabeledFewShot;
use crate::optimize::ranking::{ranked, ranking, By};
use crate::optimize::scoring::{default_scoring, Scoring};
use crate::program::{all_cleared, PredictorModel, Program};
use crate::sorted::{lemma_position, position};
use crate::text::{decimal, decimal_text, join, joined, signed_decimal, signed_text};

verus! {

/// One attempt and what it scored.
#[derive(Debug)]
pub struct Attempt {
    /// `-3` without demos, `-2` labels only, `-1` an unshuffled bootstrap, then the shuffled ones
    /// from zero up.
    pub seed: i64,
    pub score: Double,
    /// The program this attempt produced, as the state that would restore it.
    pub state: ProgramState,
}

/// What an [`Attempt`] holds.
#[verifier::ext_equal]
pub struct AttemptModel {
    pub seed: i64,
    pub score: Double,
    pub state: ProgramStateModel,
}

impl DeepView for Attempt {
    type V = AttemptModel;

    open spec fn deep_view(&self) -> AttemptModel {
        AttemptModel { seed: self.seed, score: self.score, state: self.state.deep_view() }
    }
}

impl Duplicate for Attempt {
    fn duplicate(&self) -> (r: Self) {
        Attempt { seed: self.seed, score: self.score, state: self.state.duplicate() }
    }
}

/// Bootstraps under several shuffles and keeps the best.
#[derive(Debug)]
pub struct BootstrapRandomSearch {
    pub max_bootstrapped_demos: usize,
    pub max_labeled_demos: usize,
    pub max_rounds: usize,
    pub num_candidate_programs: usize,
    pub stop_at_score: Option<Double>,
    pub metric_threshold: Option<Double>,
    /// The fewest demos a shuffled attempt asks for.
    pub min_num_samples: usize,
    pub scoring: Scoring,
    /// Whether the labels-only attempt draws its demos or takes the first few.
    pub labeled_sample: bool,
    /// Which seeds to attempt at all, where not every one.
    pub restrict: Option<Vec<i64>>,
}

/// What a [`BootstrapRandomSearch`] holds.
#[verifier::ext_equal]
pub struct RandomSearchModel {
    pub max_bootstrapped_demos: usize,
    pub max_labeled_demos: usize,
    pub max_rounds: usize,
    pub num_candidate_programs: usize,
    pub stop_at_score: Option<Double>,
    pub metric_threshold: Option<Double>,
    pub min_num_samples: usize,
    pub scoring: Scoring,
    pub labeled_sample: bool,
    pub restrict: Option<Seq<i64>>,
}

impl DeepView for BootstrapRandomSearch {
    type V = RandomSearchModel;

    open spec fn deep_view(&self) -> RandomSearchModel {
        RandomSearchModel {
            max_bootstrapped_demos: self.max_bootstrapped_demos,
            max_labeled_demos: self.max_labeled_demos,
            max_rounds: self.max_rounds,
            num_candidate_programs: self.num_candidate_programs,
            stop_at_score: self.stop_at_score,
            metric_threshold: self.metric_threshold,
            min_num_samples: self.min_num_samples,
            scoring: self.scoring,
            labeled_sample: self.labeled_sample,
            restrict: match self.restrict {
                Some(only) => Some(only@),
                None => None,
            },
        }
    }
}

impl RandomSearchModel {
    /// Whether a seed may be attempted.
    pub open spec fn allows(self, seed: i64) -> bool {
        match self.restrict {
            Some(only) => only.contains(seed),
            None => true,
        }
    }

    /// The seeds below `end` that are attempted, from `-3` up.
    pub open spec fn seeds_below(self, end: int) -> Seq<i64>
        decreases end + 3,
    {
        if end <= -3 {
            Seq::empty()
        } else {
            let before = self.seeds_below(end - 1);
            if self.allows((end - 1) as i64) {
                before.push((end - 1) as i64)
            } else {
                before
            }
        }
    }

    /// Every seed that is attempted, in order.
    pub open spec fn seeds(self) -> Seq<i64> {
        self.seeds_below(self.num_candidate_programs as int)
    }

    /// Whether an attempt's score ends the search.
    pub open spec fn stops(self, score: Double) -> bool {
        match self.stop_at_score {
            Some(bar) => reaches(score, bar),
            None => false,
        }
    }
}

/// What one seed does to the program.
#[allow(inconsistent_fields)]
#[derive(Clone, Copy, Debug, PartialEq, Eq, Structural)]
pub enum Recipe {
    /// Leaves it without demos.
    ZeroShot,
    /// Shows it labelled demos.
    Labeled { optimizer: LabeledFewShot },
    /// Bootstraps it over the trainset as it stands.
    Bootstrap { optimizer: BootstrapFewShot },
    /// Bootstraps it over the trainset shuffled for this seed, with a number of demos drawn for it.
    Shuffled,
}

/// The settings a search starts from.
pub open spec fn default_search() -> RandomSearchModel {
    RandomSearchModel {
        max_bootstrapped_demos: 4,
        max_labeled_demos: 16,
        max_rounds: 1,
        num_candidate_programs: 16,
        stop_at_score: None,
        metric_threshold: None,
        min_num_samples: 1,
        scoring: default_scoring(),
        labeled_sample: true,
        restrict: None,
    }
}

impl BootstrapRandomSearch {
    /// Four bootstrapped demos, sixteen labelled, sixteen candidate programs.
    pub fn new() -> (r: BootstrapRandomSearch)
        ensures
            r.deep_view() == default_search(),
    {
        BootstrapRandomSearch {
            max_bootstrapped_demos: 4,
            max_labeled_demos: 16,
            max_rounds: 1,
            num_candidate_programs: 16,
            stop_at_score: None,
            metric_threshold: None,
            min_num_samples: 1,
            scoring: Scoring::default(),
            labeled_sample: true,
            restrict: None,
        }
    }

    pub fn scoring(self, scoring: Scoring) -> (r: BootstrapRandomSearch)
        ensures
            r.deep_view() == (RandomSearchModel { scoring, ..self.deep_view() }),
    {
        BootstrapRandomSearch { scoring, ..self }
    }

    /// The most demos a shuffled attempt asks for.
    pub fn max_bootstrapped_demos(self, max_bootstrapped_demos: usize) -> (r: BootstrapRandomSearch)
        ensures
            r.deep_view() == (RandomSearchModel { max_bootstrapped_demos, ..self.deep_view() }),
    {
        BootstrapRandomSearch { max_bootstrapped_demos, ..self }
    }

    pub fn max_labeled_demos(self, max_labeled_demos: usize) -> (r: BootstrapRandomSearch)
        ensures
            r.deep_view() == (RandomSearchModel { max_labeled_demos, ..self.deep_view() }),
    {
        BootstrapRandomSearch { max_labeled_demos, ..self }
    }

    pub fn max_rounds(self, max_rounds: usize) -> (r: BootstrapRandomSearch)
        ensures
            r.deep_view() == (RandomSearchModel { max_rounds, ..self.deep_view() }),
    {
        BootstrapRandomSearch { max_rounds, ..self }
    }

    /// How many shuffled attempts to make, beside the three that always are.
    pub fn num_candidate_programs(self, num_candidate_programs: usize) -> (r: BootstrapRandomSearch)
        ensures
            r.deep_view() == (RandomSearchModel { num_candidate_programs, ..self.deep_view() }),
    {
        BootstrapRandomSearch { num_candidate_programs, ..self }
    }

    /// Stop as soon as an attempt scores at least this.
    pub fn stop_at_score(self, score: Double) -> (r: BootstrapRandomSearch)
        ensures
            r.deep_view() == (RandomSearchModel { stop_at_score: Some(score), ..self.deep_view() }),
    {
        BootstrapRandomSearch { stop_at_score: Some(score), ..self }
    }

    /// Read the bootstrap metric against this bar.
    pub fn metric_threshold(self, threshold: Double) -> (r: BootstrapRandomSearch)
        ensures
            r.deep_view() == (RandomSearchModel {
                metric_threshold: Some(threshold),
                ..self.deep_view()
            }),
    {
        BootstrapRandomSearch { metric_threshold: Some(threshold), ..self }
    }

    /// Whether the labels-only attempt draws its demos or takes the first few.
    pub fn labeled_sample(self, labeled_sample: bool) -> (r: BootstrapRandomSearch)
        ensures
            r.deep_view() == (RandomSearchModel { labeled_sample, ..self.deep_view() }),
    {
        BootstrapRandomSearch { labeled_sample, ..self }
    }

    /// Attempt only these seeds.
    pub fn restrict(self, seeds: Vec<i64>) -> (r: BootstrapRandomSearch)
        ensures
            r.deep_view() == (RandomSearchModel { restrict: Some(seeds@), ..self.deep_view() }),
    {
        BootstrapRandomSearch { restrict: Some(seeds), ..self }
    }

    fn allows(&self, seed: i64) -> (r: bool)
        ensures
            r == self.deep_view().allows(seed),
    {
        match &self.restrict {
            Some(only) => {
                let mut i: usize = 0;
                while i < only.len()
                    invariant
                        i <= only@.len(),
                        self.deep_view().restrict == Some(only@),
                        forall|j: int| 0 <= j < i ==> only@[j] != seed,
                    decreases only@.len() - i,
                {
                    if only[i] == seed {
                        proof {
                            assert(only@.contains(seed));
                        }
                        return true;
                    }
                    i = i + 1;
                }
                false
            },
            None => true,
        }
    }

    /// The seeds this search attempts: the three baselines, then one per candidate program, less
    /// whatever is restricted away.
    pub fn seeds(&self) -> (r: Vec<i64>)
        requires
            self.num_candidate_programs <= i64::MAX,
        ensures
            r@ == self.deep_view().seeds(),
    {
        let mut r: Vec<i64> = Vec::new();
        let end: i64 = self.num_candidate_programs as i64;
        let mut next: i64 = -3;
        while next < end
            invariant
                -3 <= next <= end,
                end == self.num_candidate_programs,
                r@ == self.deep_view().seeds_below(next as int),
            decreases end - next,
        {
            if self.allows(next) {
                r.push(next);
            }
            next = next + 1;
        }
        r
    }

    /// The bootstrap of one attempt that asks for that many demos.
    pub fn bootstrap(&self, demos: usize) -> (r: BootstrapFewShot)
        ensures
            r == (BootstrapFewShot {
                metric_threshold: self.metric_threshold,
                max_bootstrapped_demos: demos,
                max_labeled_demos: self.max_labeled_demos,
                max_rounds: self.max_rounds,
                ..configured(true)
            }),
    {
        BootstrapFewShot {
            metric_threshold: self.metric_threshold,
            max_bootstrapped_demos: demos,
            max_labeled_demos: self.max_labeled_demos,
            max_rounds: self.max_rounds,
            ..BootstrapFewShot::new()
        }
    }

    /// What a seed does to the program.
    pub fn recipe(&self, seed: i64) -> (r: Recipe)
        ensures
            r == if seed == -3 {
                Recipe::ZeroShot
            } else if seed == -2 {
                Recipe::Labeled {
                    optimizer: LabeledFewShot {
                        k: self.max_labeled_demos,
                        sample: self.labeled_sample,
                        seed: 0,
                    },
                }
            } else if seed == -1 {
                Recipe::Bootstrap {
                    optimizer: BootstrapFewShot {
                        metric_threshold: self.metric_threshold,
                        max_bootstrapped_demos: self.max_bootstrapped_demos,
                        max_labeled_demos: self.max_labeled_demos,
                        max_rounds: self.max_rounds,
                        ..configured(true)
                    },
                }
            } else {
                Recipe::Shuffled
            },
    {
        if seed == -3 {
            Recipe::ZeroShot
        } else if seed == -2 {
            Recipe::Labeled {
                optimizer: LabeledFewShot {
                    sample: self.labeled_sample,
                    ..LabeledFewShot::new(self.max_labeled_demos)
                },
            }
        } else if seed == -1 {
            Recipe::Bootstrap { optimizer: self.bootstrap(self.max_bootstrapped_demos) }
        } else {
            Recipe::Shuffled
        }
    }

    /// The trainset a shuffled seed bootstraps from and the bootstrap it makes, given the shuffle
    /// and the number of demos drawn for that seed.
    pub fn shuffled(
        &self,
        trainset: &Vec<Example>,
        permutation: &Vec<usize>,
        size: usize,
    ) -> (r: (Vec<Example>, BootstrapFewShot))
        requires
            is_sample(permutation@, trainset@.len(), trainset@.len()),
            self.min_num_samples <= size <= self.max_bootstrapped_demos,
        ensures
            r.0.deep_view() == picked(trainset.deep_view(), permutation@),
            r.1 == (BootstrapFewShot {
                metric_threshold: self.metric_threshold,
                max_bootstrapped_demos: size,
                max_labeled_demos: self.max_labeled_demos,
                max_rounds: self.max_rounds,
                ..configured(true)
            }),
    {
        (pick(trainset, permutation), self.bootstrap(size))
    }
}

/// A search whose restriction names no seed in range.
#[derive(Debug)]
pub struct NothingToAttempt {
    pub restrict: Vec<i64>,
    pub num_candidate_programs: usize,
}

impl NothingToAttempt {
    /// The refusal in words.
    pub fn message(&self) -> (r: String)
        ensures
            r@ == "`restrict` ["@ + joined(
                Seq::new(
                    self.restrict@.len(),
                    |i: int| signed_decimal(self.restrict@[i] as int),
                ),
                ", "@,
            ) + "] does not match any candidate seed in -3.."@ + decimal(
                self.num_candidate_programs as nat,
            ) + "; no candidate programs would be evaluated."@,
    {
        let mut named: Vec<String> = Vec::new();
        let ghost all = Seq::new(
            self.restrict@.len(),
            |i: int| signed_decimal(self.restrict@[i] as int),
        );
        let mut i: usize = 0;
        proof {
            assert(named.deep_view() =~= all.take(0));
        }
        while i < self.restrict.len()
            invariant
                i <= self.restrict@.len(),
                all == Seq::new(
                    self.restrict@.len(),
                    |i: int| signed_decimal(self.restrict@[i] as int),
                ),
                named.deep_view() == all.take(i as int),
            decreases self.restrict@.len() - i,
        {
            append(&mut named, signed_text(self.restrict[i]));
            proof {
                assert(all.take(i + 1) =~= all.take(i as int).push(all[i as int]));
            }
            i = i + 1;
        }
        proof {
            assert(all.take(i as int) =~= all);
        }
        let mut r: String = "`restrict` [".to_owned();
        r.append(join(&named, ", ").as_str());
        r.append("] does not match any candidate seed in -3..");
        r.append(decimal_text(self.num_candidate_programs).as_str());
        r.append("; no candidate programs would be evaluated.");
        r
    }
}

/// A search in progress.
#[derive(Debug)]
pub struct RandomSearch {
    pub settings: BootstrapRandomSearch,
    pub seeds: Vec<i64>,
    /// The program as it came, which every attempt starts from.
    pub start: ProgramState,
    pub attempts: Vec<Attempt>,
    pub stopped: bool,
}

/// What a [`RandomSearch`] holds.
#[verifier::ext_equal]
pub struct RunModel {
    pub settings: RandomSearchModel,
    pub seeds: Seq<i64>,
    pub start: ProgramStateModel,
    pub attempts: Seq<AttemptModel>,
    pub stopped: bool,
}

impl DeepView for RandomSearch {
    type V = RunModel;

    open spec fn deep_view(&self) -> RunModel {
        RunModel {
            settings: self.settings.deep_view(),
            seeds: self.seeds@,
            start: self.start.deep_view(),
            attempts: self.attempts.deep_view(),
            stopped: self.stopped,
        }
    }
}

/// The position a search settles on: it stays where the score it stands at reaches the next one,
/// and moves on otherwise.
pub open spec fn front(attempts: Seq<AttemptModel>) -> int
    decreases attempts.len(),
{
    if attempts.len() <= 1 {
        0
    } else {
        let held = front(attempts.drop_last());
        if reaches(attempts[held].score, attempts.last().score) {
            held
        } else {
            attempts.len() - 1
        }
    }
}

impl RunModel {
    /// The seed to attempt next.
    pub open spec fn next(self) -> Option<i64> {
        if !self.stopped && self.attempts.len() < self.seeds.len() {
            Some(self.seeds[self.attempts.len() as int])
        } else {
            None
        }
    }

    /// An attempt was scored.
    pub open spec fn scored(self, program: Seq<PredictorModel>, score: Double) -> RunModel {
        RunModel {
            attempts: self.attempts.push(
                AttemptModel {
                    seed: self.seeds[self.attempts.len() as int],
                    score,
                    state: saved_program(program),
                },
            ),
            stopped: self.settings.stops(score),
            ..self
        }
    }

    /// What holds between two attempts: each was made under the seed of its place, the zero-shot
    /// one holds no demos, and only the last may have ended the search.
    pub open spec fn well_formed(self) -> bool {
        &&& self.attempts.len() <= self.seeds.len()
        &&& forall|i: int|
            0 <= i < self.attempts.len() && (#[trigger] self.attempts[i]).seed == -3
                ==> without_demos(self.attempts[i].state)
        &&& forall|i: int|
            0 <= i < self.attempts.len() ==> (#[trigger] self.attempts[i]).seed == self.seeds[i]
        &&& forall|i: int|
            0 <= i < self.attempts.len() - 1 ==> !self.settings.stops(
                (#[trigger] self.attempts[i]).score,
            )
        &&& self.stopped ==> self.attempts.len() > 0
        &&& self.attempts.len() > 0 ==> self.stopped == self.settings.stops(
            self.attempts.last().score,
        )
    }
}

/// Whether a state holds predictors only, none of them with a demo.
pub open spec fn without_demos(state: ProgramStateModel) -> bool {
    forall|k: int|
        0 <= k < state.submodules.len() ==> match (#[trigger] state.submodules[k]).1 {
            SubmoduleModel::Predictor(predictor) => predictor.demos.len() == 0,
            SubmoduleModel::Flex(_) => false,
        }
}

/// What each attempt scored.
pub open spec fn scores_of(attempts: Seq<AttemptModel>) -> Seq<Double> {
    Seq::new(attempts.len(), |i: int| attempts[i].score)
}

proof fn lemma_front(attempts: Seq<AttemptModel>)
    requires
        attempts.len() > 0,
    ensures
        0 <= front(attempts) < attempts.len(),
    decreases attempts.len(),
{
    if attempts.len() > 1 {
        lemma_front(attempts.drop_last());
    }
}

/// The attempt whose program a search hands back, with its score: the first to beat every earlier
/// one, so that a later tie does not displace it.
pub fn winner(attempts: &Vec<Attempt>) -> (r: Option<(usize, Double)>)
    ensures
        match r {
            Some((at, score)) => {
                &&& attempts@.len() > 0
                &&& at == front(attempts.deep_view())
                &&& 0 <= at < attempts@.len()
                &&& score == attempts.deep_view()[at as int].score
            },
            None => attempts@.len() == 0,
        },
{
    if attempts.len() == 0 {
        return None;
    }
    let mut at: usize = 0;
    let mut i: usize = 1;
    let ghost all = attempts.deep_view();
    while i < attempts.len()
        invariant
            1 <= i <= attempts@.len(),
            at < i,
            all == attempts.deep_view(),
            at == front(all.take(i as int)),
        decreases attempts@.len() - i,
    {
        proof {
            assert(all.take(i + 1).drop_last() =~= all.take(i as int));
        }
        if !attempts[at].score.reaches(attempts[i].score) {
            at = i;
        }
        i = i + 1;
    }
    proof {
        assert(all.take(i as int) =~= all);
    }
    Some((at, attempts[at].score))
}

impl RandomSearch {
    /// A search over a program, refused where the restriction leaves nothing to attempt.
    pub fn begin(settings: BootstrapRandomSearch, student: &Program) -> (r: Result<
        RandomSearch,
        NothingToAttempt,
    >)
        requires
            settings.num_candidate_programs <= i64::MAX,
        ensures
            match r {
                Ok(run) => {
                    &&& !(settings.restrict is Some && settings.deep_view().seeds().len() == 0)
                    &&& run.deep_view() == (RunModel {
                        settings: settings.deep_view(),
                        seeds: settings.deep_view().seeds(),
                        start: saved_program(student.deep_view()),
                        attempts: Seq::empty(),
                        stopped: false,
                    })
                    &&& run.deep_view().well_formed()
                },
                Err(refused) => {
                    &&& settings.restrict is Some
                    &&& settings.deep_view().seeds().len() == 0
                    &&& Some(refused.restrict@) == settings.deep_view().restrict
                    &&& refused.num_candidate_programs == settings.num_candidate_programs
                },
            },
    {
        let seeds = settings.seeds();
        if seeds.len() == 0 {
            match settings.restrict {
                Some(restrict) => {
                    return Err(
                        NothingToAttempt {
                            restrict,
                            num_candidate_programs: settings.num_candidate_programs,
                        },
                    );
                },
                None => {
                    proof {
                        lemma_unrestricted_has_seeds(
                            settings.deep_view(),
                            settings.num_candidate_programs as int,
                        );
                    }
                    let attempts: Vec<Attempt> = Vec::new();
                    proof {
                        assert(attempts.deep_view() =~= Seq::empty());
                    }
                    return Ok(
                        RandomSearch {
                            settings: BootstrapRandomSearch { restrict: None, ..settings },
                            seeds,
                            start: student.dump_state(),
                            attempts,
                            stopped: false,
                        },
                    );
                },
            }
        }
        let attempts: Vec<Attempt> = Vec::new();
        proof {
            assert(attempts.deep_view() =~= Seq::empty());
        }
        Ok(
            RandomSearch {
                settings,
                seeds,
                start: student.dump_state(),
                attempts,
                stopped: false,
            },
        )
    }

    /// The seed to attempt next, or nothing where the search is over.
    pub fn next(&self) -> (r: Option<i64>)
        ensures
            r == self.deep_view().next(),
    {
        if !self.stopped && self.attempts.len() < self.seeds.len() {
            Some(self.seeds[self.attempts.len()])
        } else {
            None
        }
    }

    /// Puts the student back to the program the search started from.
    pub fn reset(&self, student: &mut Program) -> (r: Result<(), MissingEntries>)
        ensures
            match r {
                Ok(()) => {
                    &&& missing_names(old(student).deep_view(), self.deep_view().start).len() == 0
                    &&& final(student).deep_view() == restored_program(
                        old(student).deep_view(),
                        self.deep_view().start,
                        Trust::Default,
                    )
                },
                Err(_) => {
                    &&& missing_names(old(student).deep_view(), self.deep_view().start).len() > 0
                    &&& final(student).deep_view() == old(student).deep_view()
                },
            },
    {
        student.put_back(&self.start, Trust::Default)
    }

    /// Makes the zero-shot attempt: the program the search started from, without any demos.
    pub fn zero_shot(&self, student: &mut Program) -> (r: Result<(), MissingEntries>)
        ensures
            match r {
                Ok(()) => {
                    &&& missing_names(old(student).deep_view(), self.deep_view().start).len() == 0
                    &&& final(student).deep_view() == all_cleared(
                        restored_program(
                            old(student).deep_view(),
                            self.deep_view().start,
                            Trust::Default,
                        ),
                    )
                },
                Err(_) => {
                    &&& missing_names(old(student).deep_view(), self.deep_view().start).len() > 0
                    &&& final(student).deep_view() == old(student).deep_view()
                },
            },
    {
        match self.reset(student) {
            Ok(()) => {
                student.clear_demos();
                Ok(())
            },
            Err(missing) => Err(missing),
        }
    }

    /// The student, as the attempt left it, was scored. The zero-shot attempt leaves it without
    /// demos.
    pub fn scored(&mut self, student: &Program, score: Double)
        requires
            old(self).deep_view().well_formed(),
            old(self).deep_view().next() is Some,
            old(self).deep_view().next() == Some(-3i64) ==> forall|p: int|
                0 <= p < student.deep_view().len() ==> (
                #[trigger] student.deep_view()[p]).demos.len() == 0,
        ensures
            final(self).deep_view() == old(self).deep_view().scored(student.deep_view(), score),
            final(self).deep_view().well_formed(),
    {
        let attempt = Attempt {
            seed: self.seeds[self.attempts.len()],
            score,
            state: student.dump_state(),
        };
        proof {
            if self.deep_view().attempts.len() > 0 {
                let last = self.deep_view().attempts.len() - 1;
                assert(self.deep_view().attempts[last] == self.deep_view().attempts.last());
            }
            if attempt.seed == -3 {
                lemma_saved_without_demos(student.deep_view(), student.deep_view().len());
            }
        }
        append(&mut self.attempts, attempt);
        self.stopped =
        match self.settings.stop_at_score {
            Some(bar) => score.reaches(bar),
            None => false,
        };
    }

    /// Leaves the student on the winner's program, or as it is where nothing was attempted.
    pub fn finish(&self, student: &mut Program) -> (r: Result<(), MissingEntries>)
        ensures
            match r {
                Ok(()) => if self.deep_view().attempts.len() == 0 {
                    final(student).deep_view() == old(student).deep_view()
                } else {
                    &&& missing_names(
                        old(student).deep_view(),
                        self.deep_view().attempts[front(self.deep_view().attempts)].state,
                    ).len() == 0
                    &&& final(student).deep_view() == restored_program(
                        old(student).deep_view(),
                        self.deep_view().attempts[front(self.deep_view().attempts)].state,
                        Trust::Default,
                    )
                },
                Err(_) => {
                    &&& self.deep_view().attempts.len() > 0
                    &&& missing_names(
                        old(student).deep_view(),
                        self.deep_view().attempts[front(self.deep_view().attempts)].state,
                    ).len() > 0
                    &&& final(student).deep_view() == old(student).deep_view()
                },
            },
    {
        match winner(&self.attempts) {
            Some((at, _)) => {
                proof {
                    assert(self.deep_view().attempts[at as int]
                        == self.attempts@[at as int].deep_view());
                }
                student.put_back(&self.attempts[at].state, Trust::Default)
            },
            None => Ok(()),
        }
    }

    /// Every attempt in decreasing score, ties in the order they were tried.
    pub fn ranked(&self) -> (r: Vec<Attempt>)
        requires
            forall|i: int|
                0 <= i < self.deep_view().attempts.len() ==> !is_nan(
                    (#[trigger] self.deep_view().attempts[i]).score,
                ),
        ensures
            r.deep_view() == picked(
                self.deep_view().attempts,
                ranked(By::Number, scores_of(self.deep_view().attempts)),
            ),
    {
        let mut scores: Vec<Double> = Vec::new();
        let ghost all = scores_of(self.deep_view().attempts);
        let mut i: usize = 0;
        while i < self.attempts.len()
            invariant
                i <= self.attempts@.len(),
                all == scores_of(self.deep_view().attempts),
                scores@ =~= all.take(i as int),
            decreases self.attempts@.len() - i,
        {
            scores.push(self.attempts[i].score);
            i = i + 1;
        }
        proof {
            assert(all.take(i as int) =~= all);
            assert forall|k: int| 0 <= k < scores@.len() implies !is_nan(
                #[trigger] scores@[k],
            ) by {
                assert(scores@[k] == self.deep_view().attempts[k].score);
            }
        }
        let order = ranking(By::Number, &scores);
        pick(&self.attempts, &order)
    }
}

proof fn lemma_unrestricted_has_seeds(settings: RandomSearchModel, end: int)
    requires
        settings.restrict is None,
        end > -3,
    ensures
        settings.seeds_below(end).len() > 0,
    decreases end + 3,
{
    if end > -2 {
        lemma_unrestricted_has_seeds(settings, end - 1);
    }
}

/// Without a restriction the seeds are the three baselines and then one per candidate program.
pub proof fn law_the_baselines_are_always_attempted(settings: RandomSearchModel, end: int, i: int)
    requires
        settings.restrict is None,
        -3 <= end <= i64::MAX,
        0 <= i < end + 3,
    ensures
        settings.seeds_below(end).len() == end + 3,
        settings.seeds_below(end)[i] == i - 3,
    decreases end + 3,
{
    if end > -2 {
        law_the_baselines_are_always_attempted(settings, end - 1, if i < end + 2 {
            i
        } else {
            0
        });
    } else {
        assert(settings.seeds_below(-3).len() == 0);
    }
}

/// Restricting a search leaves exactly the seeds of the whole search that are named.
pub proof fn law_restricting_only_drops_seeds(
    settings: RandomSearchModel,
    end: int,
    seed: i64,
)
    requires
        end <= i64::MAX,
    ensures
        settings.seeds_below(end).contains(seed) <==> -3 <= seed < end && (settings.restrict is None
            || settings.restrict->0.contains(seed)),
        settings.seeds() == settings.seeds_below(settings.num_candidate_programs as int),
    decreases end + 3,
{
    if end > -3 {
        law_restricting_only_drops_seeds(settings, end - 1, seed);
        let before = settings.seeds_below(end - 1);
        let all = settings.seeds_below(end);
        if before.contains(seed) {
            let i = choose|i: int| 0 <= i < before.len() && before[i] == seed;
            assert(all[i] == seed);
        }
        if settings.allows((end - 1) as i64) {
            assert(all.last() == (end - 1) as i64);
            if all.contains(seed) {
                let i = choose|i: int| 0 <= i < all.len() && all[i] == seed;
                if i < before.len() {
                    assert(before[i] == seed);
                }
            }
        }
    } else {
        assert(settings.seeds_below(end).len() == 0);
    }
}

/// A program made zero-shot is one that may be scored as such, whatever demos the student arrived
/// with, and is saved without demos.
pub proof fn law_a_zero_shot_attempt_holds_no_demos(program: Seq<PredictorModel>)
    ensures
        forall|p: int|
            0 <= p < program.len() ==> (#[trigger] all_cleared(program)[p]).demos.len() == 0,
        without_demos(saved_program(all_cleared(program))),
{
    lemma_saved_without_demos(all_cleared(program), program.len());
}

/// A search is over once every seed was attempted, or as soon as an attempt reached the bar.
pub proof fn law_a_search_ends_at_its_last_seed_or_at_the_bar(run: RunModel)
    requires
        run.well_formed(),
        run.next() is None,
    ensures
        run.attempts.len() == run.seeds.len() || (run.attempts.len() > 0
            && run.settings.stop_at_score is Some && reaches(
            run.attempts.last().score,
            run.settings.stop_at_score->0,
        )),
        forall|i: int|
            0 <= i < run.attempts.len() ==> (#[trigger] run.attempts[i]).seed == run.seeds[i],
{
}

proof fn lemma_saved_without_demos(program: Seq<PredictorModel>, n: nat)
    requires
        n <= program.len(),
        forall|p: int| 0 <= p < program.len() ==> (#[trigger] program[p]).demos.len() == 0,
    ensures
        forall|k: int|
            0 <= k < saved_submodules(program, n).len() ==> match (#[trigger] saved_submodules(
                program,
                n,
            )[k]).1 {
                SubmoduleModel::Predictor(state) => state.demos.len() == 0,
                SubmoduleModel::Flex(_) => false,
            },
    decreases n,
{
    if n > 0 {
        let before = saved_submodules(program, (n - 1) as nat);
        let after = saved_submodules(program, n);
        let last = program[n - 1];
        lemma_saved_without_demos(program, (n - 1) as nat);
        lemma_position(before, last.name);
        let at = position(before, last.name);
        let replaced = at < before.len() && before[at].0 == last.name;
        assert forall|k: int| 0 <= k < after.len() implies match (#[trigger] after[k]).1 {
            SubmoduleModel::Predictor(state) => state.demos.len() == 0,
            SubmoduleModel::Flex(_) => false,
        } by {
            if k == at {
                assert(last.demos.len() == 0);
            } else if replaced || k < at {
                assert(after[k] == before[k]);
            } else {
                assert(after[k] == before[k - 1]);
            }
        }
    }
}

/// No attempt's score exceeds the winner's, and an attempt before the winner never reached it.
pub proof fn law_the_winner_is_the_first_to_beat_the_rest(attempts: Seq<AttemptModel>, i: int)
    requires
        0 <= i < attempts.len(),
        forall|k: int| 0 <= k < attempts.len() ==> !is_nan((#[trigger] attempts[k]).score),
    ensures
        0 <= front(attempts) < attempts.len(),
        reaches(attempts[front(attempts)].score, attempts[i].score),
        i < front(attempts) ==> !reaches(attempts[i].score, attempts[front(attempts)].score),
    decreases attempts.len(),
{
    lemma_front(attempts);
    if attempts.len() > 1 {
        let before = attempts.drop_last();
        lemma_front(before);
        law_the_winner_is_the_first_to_beat_the_rest(before, front(before));
        if i < before.len() {
            law_the_winner_is_the_first_to_beat_the_rest(before, i);
        }
    }
}

/// Seeds are attempted in increasing order, each once.
pub proof fn law_seeds_are_attempted_in_order(
    settings: RandomSearchModel,
    end: int,
    i: int,
    j: int,
)
    requires
        end <= i64::MAX,
        0 <= i < j < settings.seeds_below(end).len(),
    ensures
        settings.seeds_below(end)[i] < settings.seeds_below(end)[j],
    decreases end + 3,
{
    let before = settings.seeds_below(end - 1);
    if j < before.len() {
        law_seeds_are_attempted_in_order(settings, end - 1, i, j);
    } else {
        assert(before.contains(before[i]));
        law_restricting_only_drops_seeds(settings, end - 1, before[i]);
    }
}

/// A search goes on to its next seed unless the last attempt reached the bar. What is recorded of an
/// attempt is its seed, its score and the program as it was scored; earlier attempts stay.
pub proof fn law_an_attempt_is_recorded_as_it_was_made(
    run: RunModel,
    program: Seq<PredictorModel>,
    score: Double,
)
    requires
        run.well_formed(),
        run.next() is Some,
    ensures
        ({
            let after = run.scored(program, score);
            let n = run.attempts.len() as int;
            &&& run.next() == Some(run.seeds[n])
            &&& after.attempts.len() == n + 1
            &&& after.attempts.take(n) == run.attempts
            &&& after.attempts[n].seed == run.seeds[n]
            &&& after.attempts[n].score == score
            &&& after.attempts[n].state == saved_program(program)
            &&& after.start == run.start
            &&& after.seeds == run.seeds
            &&& after.next() is None <==> n + 1 == run.seeds.len() || (
            run.settings.stop_at_score is Some && reaches(score, run.settings.stop_at_score->0))
        }),
{
    assert(run.scored(program, score).attempts.take(run.attempts.len() as int) =~= run.attempts);
}

} // verus!
