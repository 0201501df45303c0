//! How a run is configured, and what its configuration comes to on a given trainset.
use vstd::prelude::*;
use crate::double::Double;
use crate::duplicate::{duplicate_range, Duplicate};
use crate::example::{Example, ExampleModel};
use crate::observe::evaluating::Pass;
use crate::optimize::draw::{is_sample, least, lesser, picked};
use crate::optimize::mipro::minibatch::{subsample, Auto, MIN_MINIBATCH_SIZE};
use crate::optimize::scoring::{default_scoring, Scoring};
use crate::powers::{floor_log2, log2_of_power, power};

verus! {

/// How many bootstrapped demos ground a proposal where demos are not searched.
pub const ZEROSHOT_BOOTSTRAPPED: usize = 3;

/// How many labelled demos ground a proposal where demos are not searched.
pub const ZEROSHOT_LABELED: usize = 0;

/// An instruction optimizer: it proposes instructions and builds demo sets for every predictor,
/// and searches the combinations.
#[derive(Debug)]
pub struct MIPROv2 {
    /// How many instructions are proposed per predictor, where no preset decides.
    pub num_candidates: usize,
    /// How many combinations are tried, where no preset decides.
    pub num_trials: usize,
    pub seed: u64,
    /// The temperature instructions are proposed at.
    pub init_temperature: Double,
    /// The score a bootstrapped attempt must reach to be kept.
    pub metric_threshold: Option<Double>,
    pub scoring: Scoring,
    /// The program described in pseudo-code, which makes the proposals aware of it.
    pub program_code: Option<String>,
    /// Whether each proposal draws a writing tip.
    pub tip_aware: bool,
    pub max_bootstrapped_demos: usize,
    pub max_labeled_demos: usize,
    /// A budget preset, which replaces the two counts and subsamples the validation set.
    pub auto: Option<Auto>,
    /// Whether each trial is scored on a subsample, where no preset decides.
    pub minibatch: bool,
    pub minibatch_size: usize,
    /// How many minibatch trials come between two full evaluations.
    pub minibatch_full_eval_steps: usize,
    /// Whether the proposals are shown a summary of the trainset.
    pub data_aware_proposer: bool,
    /// How many examples each summarising call reads.
    pub view_data_batch_size: usize,
    /// Whether each proposal is shown the demos of its own candidate.
    pub fewshot_aware_proposer: bool,
}

/// What a run's counts and its validation set come to.
#[derive(Debug)]
pub struct RunMode {
    pub num_trials: usize,
    pub valset: Vec<Example>,
    pub minibatch: bool,
    pub instruction_candidates: usize,
    pub fewshot_candidates: usize,
}

/// What a [`RunMode`] holds.
#[verifier::ext_equal]
pub struct ModeModel {
    pub num_trials: nat,
    pub valset: Seq<ExampleModel>,
    pub minibatch: bool,
    pub instruction_candidates: nat,
    pub fewshot_candidates: nat,
}

impl DeepView for RunMode {
    type V = ModeModel;

    open spec fn deep_view(&self) -> ModeModel {
        ModeModel {
            num_trials: self.num_trials as nat,
            valset: self.valset.deep_view(),
            minibatch: self.minibatch,
            instruction_candidates: self.instruction_candidates as nat,
            fewshot_candidates: self.fewshot_candidates as nat,
        }
    }
}

/// Why the datasets of a run were refused.
#[derive(Clone, Copy, Debug, PartialEq, Eq, Structural)]
pub enum DatasetsRefused {
    EmptyTrainset,
    /// One example cannot be split in two.
    NothingToSplit,
    EmptyValset,
}

impl DatasetsRefused {
    pub open spec fn text(self) -> Seq<char> {
        match self {
            DatasetsRefused::EmptyTrainset => "Trainset cannot be empty."@,
            DatasetsRefused::NothingToSplit =>
                "Trainset must have at least 2 examples if no valset specified."@,
            DatasetsRefused::EmptyValset => "Valset cannot be empty."@,
        }
    }

    pub fn message(self) -> (r: String)
        ensures
            r@ == self.text(),
    {
        match self {
            DatasetsRefused::EmptyTrainset => "Trainset cannot be empty.".to_owned(),
            DatasetsRefused::NothingToSplit =>
                "Trainset must have at least 2 examples if no valset specified.".to_owned(),
            DatasetsRefused::EmptyValset => "Valset cannot be empty.".to_owned(),
        }
    }
}

/// How many examples of a trainset are held out to score on: four fifths of it, rounded down, at
/// least one and at most a thousand.
pub open spec fn holdout(length: nat) -> nat {
    let share = length * 4 / 5;
    if share < 1 {
        1
    } else if share > 1000 {
        1000
    } else {
        share
    }
}

/// What a run bootstraps from and what it scores on. Without a validation set the last part of the
/// trainset is held out for one, and the rest is bootstrapped from.
pub open spec fn split_of(
    trainset: Seq<ExampleModel>,
    valset: Option<Seq<ExampleModel>>,
) -> Result<(Seq<ExampleModel>, Seq<ExampleModel>), DatasetsRefused> {
    if trainset.len() == 0 {
        Err(DatasetsRefused::EmptyTrainset)
    } else {
        match valset {
            Some(given) => if given.len() == 0 {
                Err(DatasetsRefused::EmptyValset)
            } else {
                Ok((trainset, given))
            },
            None => if trainset.len() < 2 {
                Err(DatasetsRefused::NothingToSplit)
            } else {
                let cutoff = trainset.len() - holdout(trainset.len());
                Ok((trainset.take(cutoff), trainset.skip(cutoff)))
            },
        }
    }
}

/// How many variables a search has: an instruction per predictor, and a demo set beside it where
/// demos are searched.
pub open spec fn variables(predictors: nat, zeroshot: bool) -> nat {
    if zeroshot {
        predictors
    } else {
        predictors * 2
    }
}

/// How many trials a candidate count is worth: the larger of twice the variables times the binary
/// logarithm of the count, and one and a half times the count, rounded down.
pub open spec fn worth(num_vars: nat, num_candidates: nat) -> nat {
    if num_candidates == 0 {
        0
    } else {
        let by_space = floor_log2(power(num_candidates, 2 * num_vars));
        let by_count = num_candidates + num_candidates / 2;
        if by_space >= by_count {
            by_space
        } else {
            by_count
        }
    }
}

/// How many trials a preset's candidate count is worth on a program of so many predictors.
pub fn trials_for(predictors: usize, zeroshot: bool, num_candidates: usize) -> (r: usize)
    requires
        4 * predictors <= usize::MAX / 64 - 1,
        num_candidates <= usize::MAX / 2,
    ensures
        r == worth(variables(predictors as nat, zeroshot), num_candidates as nat),
{
    if num_candidates == 0 {
        return 0;
    }
    let num_vars: usize = if zeroshot {
        predictors
    } else {
        predictors * 2
    };
    let by_space: usize = log2_of_power(num_candidates as u64, 2 * num_vars);
    let by_count: usize = num_candidates + num_candidates / 2;
    if by_space >= by_count {
        by_space
    } else {
        by_count
    }
}

/// The settings every run starts from: a light preset, four demos of each sort, minibatches of 35
/// with a full evaluation every five, and every kind of grounding.
pub open spec fn default_settings() -> SettingsModel {
    SettingsModel {
        num_candidates: 10,
        num_trials: 20,
        seed: 9,
        init_temperature: Double { bits: 0x3ff0_0000_0000_0000 },
        metric_threshold: None,
        scoring: default_scoring(),
        program_code: None,
        tip_aware: true,
        max_bootstrapped_demos: 4,
        max_labeled_demos: 4,
        auto: Some(Auto::Light),
        minibatch: true,
        minibatch_size: 35,
        minibatch_full_eval_steps: 5,
        data_aware_proposer: true,
        view_data_batch_size: 10,
        fewshot_aware_proposer: true,
    }
}

/// What a [`MIPROv2`] holds.
pub struct SettingsModel {
    pub num_candidates: usize,
    pub num_trials: usize,
    pub seed: u64,
    pub init_temperature: Double,
    pub metric_threshold: Option<Double>,
    pub scoring: Scoring,
    pub program_code: Option<Seq<char>>,
    pub tip_aware: bool,
    pub max_bootstrapped_demos: usize,
    pub max_labeled_demos: usize,
    pub auto: Option<Auto>,
    pub minibatch: bool,
    pub minibatch_size: usize,
    pub minibatch_full_eval_steps: usize,
    pub data_aware_proposer: bool,
    pub view_data_batch_size: usize,
    pub fewshot_aware_proposer: bool,
}

impl DeepView for MIPROv2 {
    type V = SettingsModel;

    open spec fn deep_view(&self) -> SettingsModel {
        SettingsModel {
            num_candidates: self.num_candidates,
            num_trials: self.num_trials,
            seed: self.seed,
            init_temperature: self.init_temperature,
            metric_threshold: self.metric_threshold,
            scoring: self.scoring,
            program_code: self.program_code.deep_view(),
            tip_aware: self.tip_aware,
            max_bootstrapped_demos: self.max_bootstrapped_demos,
            max_labeled_demos: self.max_labeled_demos,
            auto: self.auto,
            minibatch: self.minibatch,
            minibatch_size: self.minibatch_size,
            minibatch_full_eval_steps: self.minibatch_full_eval_steps,
            data_aware_proposer: self.data_aware_proposer,
            view_data_batch_size: self.view_data_batch_size,
            fewshot_aware_proposer: self.fewshot_aware_proposer,
        }
    }
}

impl SettingsModel {
    /// Whether demos are grounding only, and not searched.
    pub open spec fn is_zeroshot(self) -> bool {
        self.max_bootstrapped_demos == 0 && self.max_labeled_demos == 0
    }

    /// What a run's counts and its validation set come to. A preset decides all of them, from the
    /// positions drawn for it; without one the settings stand.
    pub open spec fn mode(
        self,
        predictors: nat,
        zeroshot: bool,
        valset: Seq<ExampleModel>,
        drawn: Seq<usize>,
    ) -> ModeModel {
        match self.auto {
            Some(auto) => ModeModel {
                num_trials: worth(variables(predictors, zeroshot), auto.candidate_count()),
                valset: picked(valset, drawn),
                minibatch: least(auto.validation_size(), valset.len()) > MIN_MINIBATCH_SIZE,
                instruction_candidates: if zeroshot {
                    auto.candidate_count()
                } else {
                    auto.candidate_count() / 2
                },
                fewshot_candidates: auto.candidate_count(),
            },
            None => ModeModel {
                num_trials: self.num_trials as nat,
                valset,
                minibatch: self.minibatch,
                instruction_candidates: self.num_candidates as nat,
                fewshot_candidates: self.num_candidates as nat,
            },
        }
    }
}

impl MIPROv2 {
    /// Why a compile is refused: there is no teacher to learn from.
    pub fn refusal(&self, teacher: bool) -> (r: Option<String>)
        ensures
            r.deep_view() == if teacher {
                Some("MIPROv2 proposes instructions from a metric and has no teacher to learn from"@)
            } else {
                None
            },
    {
        if teacher {
            Some(
                "MIPROv2 proposes instructions from a metric and has no teacher to learn from".to_owned(),
            )
        } else {
            None
        }
    }

    /// The settings every run starts from.
    pub fn new() -> (r: MIPROv2)
        ensures
            r.deep_view() == default_settings(),
    {
        MIPROv2 {
            num_candidates: 10,
            num_trials: 20,
            seed: 9,
            init_temperature: Double::one(),
            metric_threshold: None,
            scoring: Scoring::default(),
            program_code: None,
            tip_aware: true,
            max_bootstrapped_demos: 4,
            max_labeled_demos: 4,
            auto: Some(Auto::Light),
            minibatch: true,
            minibatch_size: 35,
            minibatch_full_eval_steps: 5,
            data_aware_proposer: true,
            view_data_batch_size: 10,
            fewshot_aware_proposer: true,
        }
    }

    /// Runs to a budget preset rather than to explicit counts.
    pub fn auto(self, auto: Auto) -> (r: MIPROv2)
        ensures
            r.deep_view() == (SettingsModel { auto: Some(auto), ..self.deep_view() }),
    {
        MIPROv2 { auto: Some(auto), ..self }
    }

    /// Scores each trial on a subsample of the validation set, or on all of it.
    pub fn minibatch(self, minibatch: bool) -> (r: MIPROv2)
        ensures
            r.deep_view() == (SettingsModel { minibatch, ..self.deep_view() }),
    {
        MIPROv2 { minibatch, ..self }
    }

    /// How many examples one minibatch trial scores on.
    pub fn minibatch_size(self, minibatch_size: usize) -> (r: MIPROv2)
        ensures
            r.deep_view() == (SettingsModel { minibatch_size, ..self.deep_view() }),
    {
        MIPROv2 { minibatch_size, ..self }
    }

    /// How often a full evaluation interrupts the minibatch trials.
    pub fn minibatch_full_eval_steps(self, minibatch_full_eval_steps: usize) -> (r: MIPROv2)
        ensures
            r.deep_view() == (SettingsModel { minibatch_full_eval_steps, ..self.deep_view() }),
    {
        MIPROv2 { minibatch_full_eval_steps, ..self }
    }

    /// How many bootstrapped demos a set may hold.
    pub fn max_bootstrapped_demos(self, max_bootstrapped_demos: usize) -> (r: MIPROv2)
        ensures
            r.deep_view() == (SettingsModel { max_bootstrapped_demos, ..self.deep_view() }),
    {
        MIPROv2 { max_bootstrapped_demos, ..self }
    }

    /// How many labelled demos a set may hold.
    pub fn max_labeled_demos(self, max_labeled_demos: usize) -> (r: MIPROv2)
        ensures
            r.deep_view() == (SettingsModel { max_labeled_demos, ..self.deep_view() }),
    {
        MIPROv2 { max_labeled_demos, ..self }
    }

    /// How many instructions to propose per predictor, which clears any preset.
    pub fn num_candidates(self, num_candidates: usize) -> (r: MIPROv2)
        ensures
            r.deep_view() == (SettingsModel { num_candidates, auto: None, ..self.deep_view() }),
    {
        MIPROv2 { num_candidates, auto: None, ..self }
    }

    /// How many combinations to try, which clears any preset.
    pub fn num_trials(self, num_trials: usize) -> (r: MIPROv2)
        ensures
            r.deep_view() == (SettingsModel { num_trials, auto: None, ..self.deep_view() }),
    {
        MIPROv2 { num_trials, auto: None, ..self }
    }

    /// Whether each proposal draws a writing tip.
    pub fn tip_aware_proposer(self, tip_aware: bool) -> (r: MIPROv2)
        ensures
            r.deep_view() == (SettingsModel { tip_aware, ..self.deep_view() }),
    {
        MIPROv2 { tip_aware, ..self }
    }

    /// The temperature instructions are proposed at.
    pub fn init_temperature(self, init_temperature: Double) -> (r: MIPROv2)
        ensures
            r.deep_view() == (SettingsModel { init_temperature, ..self.deep_view() }),
    {
        MIPROv2 { init_temperature, ..self }
    }

    /// The score a bootstrapped attempt must reach to be kept.
    pub fn metric_threshold(self, threshold: Double) -> (r: MIPROv2)
        ensures
            r.deep_view() == (SettingsModel {
                metric_threshold: Some(threshold),
                ..self.deep_view()
            }),
    {
        MIPROv2 { metric_threshold: Some(threshold), ..self }
    }

    /// What each scoring pass is bounded by.
    pub fn scoring(self, scoring: Scoring) -> (r: MIPROv2)
        ensures
            r.deep_view() == (SettingsModel { scoring, ..self.deep_view() }),
    {
        MIPROv2 { scoring, ..self }
    }

    /// The seed of the proposals' draws and of the sampler.
    pub fn seed(self, seed: u64) -> (r: MIPROv2)
        ensures
            r.deep_view() == (SettingsModel { seed, ..self.deep_view() }),
    {
        MIPROv2 { seed, ..self }
    }

    /// Describes the program in pseudo-code, which makes the proposals aware of it.
    pub fn program_code(self, program_code: &str) -> (r: MIPROv2)
        ensures
            r.deep_view() == (SettingsModel {
                program_code: Some(program_code@),
                ..self.deep_view()
            }),
    {
        MIPROv2 { program_code: Some(program_code.to_owned()), ..self }
    }

    /// Whether the proposals are shown a summary of the trainset.
    pub fn data_aware_proposer(self, data_aware_proposer: bool) -> (r: MIPROv2)
        ensures
            r.deep_view() == (SettingsModel { data_aware_proposer, ..self.deep_view() }),
    {
        MIPROv2 { data_aware_proposer, ..self }
    }

    /// Whether this run searches no demos at all.
    pub fn zeroshot(&self) -> (r: bool)
        ensures
            r == self.deep_view().is_zeroshot(),
    {
        self.max_bootstrapped_demos == 0 && self.max_labeled_demos == 0
    }

    /// How many labelled and how many bootstrapped demos the sets are built with. A run that does
    /// not search them builds them all the same, to ground its proposals.
    pub fn demo_budgets(&self) -> (r: (usize, usize))
        ensures
            r == if self.deep_view().is_zeroshot() {
                (ZEROSHOT_LABELED, ZEROSHOT_BOOTSTRAPPED)
            } else {
                (self.max_labeled_demos, self.max_bootstrapped_demos)
            },
    {
        if self.zeroshot() {
            (ZEROSHOT_LABELED, ZEROSHOT_BOOTSTRAPPED)
        } else {
            (self.max_labeled_demos, self.max_bootstrapped_demos)
        }
    }

    /// What a run bootstraps from and what it scores on. Without a validation set the last part of
    /// the trainset is held out for one, and the rest is bootstrapped from.
    pub fn datasets(&self, trainset: &Vec<Example>, valset: Option<&Vec<Example>>) -> (r: Result<
        (Vec<Example>, Vec<Example>),
        DatasetsRefused,
    >)
        ensures
            split_of(
                trainset.deep_view(),
                match valset {
                    Some(given) => Some(given.deep_view()),
                    None => None,
                },
            ) == match r {
                Ok((train, scored)) => Ok((train.deep_view(), scored.deep_view())),
                Err(refused) => Err(refused),
            },
    {
        if trainset.len() == 0 {
            return Err(DatasetsRefused::EmptyTrainset);
        }
        match valset {
            Some(given) => {
                if given.len() == 0 {
                    return Err(DatasetsRefused::EmptyValset);
                }
                Ok((trainset.duplicate(), given.duplicate()))
            },
            None => {
                let length: usize = trainset.len();
                if length < 2 {
                    return Err(DatasetsRefused::NothingToSplit);
                }
                let size: usize = if length >= 1250 {
                    1000
                } else if length * 4 / 5 < 1 {
                    1
                } else {
                    length * 4 / 5
                };
                let cutoff: usize = length - size;
                let train = duplicate_range(trainset, 0, cutoff);
                let scored = duplicate_range(trainset, cutoff, length);
                proof {
                    assert(trainset.deep_view().subrange(0, cutoff as int)
                        =~= trainset.deep_view().take(cutoff as int));
                    assert(trainset.deep_view().subrange(cutoff as int, length as int)
                        =~= trainset.deep_view().skip(cutoff as int));
                }
                Ok((train, scored))
            },
        }
    }

    /// How many positions of the validation set the run mode draws, before anything else draws.
    pub fn mode_draw(&self, valset: usize) -> (r: Option<usize>)
        ensures
            match self.auto {
                Some(auto) => r is Some && r->0 == least(auto.validation_size(), valset as nat),
                None => r is None,
            },
    {
        match self.auto {
            Some(auto) => Some(lesser(auto.val_size(), valset)),
            None => None,
        }
    }

    /// What a run's counts and its validation set come to. A preset decides all of them, from the
    /// positions drawn for it; without one the settings stand.
    pub fn run_mode(
        &self,
        predictors: usize,
        zeroshot: bool,
        valset: &Vec<Example>,
        drawn: &Vec<usize>,
    ) -> (r: RunMode)
        requires
            4 * predictors <= usize::MAX / 64 - 1,
            match self.auto {
                Some(auto) => is_sample(
                    drawn@,
                    valset@.len(),
                    least(auto.validation_size(), valset@.len()),
                ),
                None => true,
            },
        ensures
            r.deep_view() == self.deep_view().mode(
                predictors as nat,
                zeroshot,
                valset.deep_view(),
                drawn@,
            ),
    {
        match self.auto {
            Some(auto) => {
                let scored = subsample(valset, auto.val_size(), drawn);
                let minibatch: bool = scored.len() > MIN_MINIBATCH_SIZE;
                RunMode {
                    num_trials: trials_for(predictors, zeroshot, auto.candidates()),
                    valset: scored,
                    minibatch,
                    instruction_candidates: auto.instruction_candidates(zeroshot),
                    fewshot_candidates: auto.candidates(),
                }
            },
            None => RunMode {
                num_trials: self.num_trials,
                valset: valset.duplicate(),
                minibatch: self.minibatch,
                instruction_candidates: self.num_candidates,
                fewshot_candidates: self.num_candidates,
            },
        }
    }

    /// Which kind of pass a scoring of so many examples is: a full one, unless the validation set
    /// has more.
    pub fn pass(&self, examples: usize, mode: &RunMode) -> (r: Pass)
        ensures
            r == if examples >= mode.valset@.len() {
                Pass::Full
            } else {
                Pass::Minibatch
            },
    {
        if examples >= mode.valset.len() {
            Pass::Full
        } else {
            Pass::Minibatch
        }
    }

    /// How many examples one trial scores on.
    pub fn batch_size(&self, mode: &RunMode) -> (r: usize)
        ensures
            r == if mode.minibatch {
                self.minibatch_size as nat
            } else {
                mode.valset@.len()
            },
    {
        if mode.minibatch {
            self.minibatch_size
        } else {
            mode.valset.len()
        }
    }
}

/// The two halves a trainset is split into make it up again, and both hold something.
pub proof fn law_the_split_loses_nothing(trainset: Seq<ExampleModel>)
    requires
        trainset.len() >= 2,
    ensures
        ({
            let cutoff = trainset.len() - holdout(trainset.len());
            &&& 0 < cutoff < trainset.len()
            &&& trainset.take(cutoff) + trainset.skip(cutoff) == trainset
        }),
{
    let cutoff = trainset.len() - holdout(trainset.len());
    assert(trainset.take(cutoff) + trainset.skip(cutoff) =~= trainset);
}

/// Four fifths of a trainset are held out, rounded down, but at least one example and at most a
/// thousand.
pub proof fn law_four_fifths_are_held_out(length: nat)
    ensures
        1 <= holdout(length) <= 1000,
        1 < holdout(length) < 1000 ==> 5 * holdout(length) <= 4 * length < 5 * (holdout(length)
            + 1),
        holdout(length) == 1 ==> 4 * length < 10,
        holdout(length) == 1000 ==> 4 * length >= 5000,
{
}

/// A run scores on the validation set it is given and learns from the whole trainset. Without one it
/// scores on the held-out end of the trainset and learns from the rest. It is refused exactly where
/// one of the two would be empty.
pub proof fn law_a_run_learns_from_one_part_and_scores_on_the_other(
    trainset: Seq<ExampleModel>,
    valset: Seq<ExampleModel>,
)
    ensures
        trainset.len() > 0 && valset.len() > 0 ==> split_of(trainset, Some(valset))
            == Ok::<_, DatasetsRefused>((trainset, valset)),
        trainset.len() > 0 && valset.len() == 0 ==> split_of(trainset, Some(valset)) == Err::<
            (Seq<ExampleModel>, Seq<ExampleModel>),
            DatasetsRefused,
        >(DatasetsRefused::EmptyValset),
        trainset.len() == 0 ==> split_of(trainset, Some(valset)) == Err::<
            (Seq<ExampleModel>, Seq<ExampleModel>),
            DatasetsRefused,
        >(DatasetsRefused::EmptyTrainset) && split_of(trainset, None) == Err::<
            (Seq<ExampleModel>, Seq<ExampleModel>),
            DatasetsRefused,
        >(DatasetsRefused::EmptyTrainset),
        trainset.len() == 1 ==> split_of(trainset, None) == Err::<
            (Seq<ExampleModel>, Seq<ExampleModel>),
            DatasetsRefused,
        >(DatasetsRefused::NothingToSplit),
        trainset.len() >= 2 ==> match split_of(trainset, None) {
            Ok((learned, scored)) => {
                &&& learned + scored == trainset
                &&& learned.len() > 0
                &&& scored.len() == holdout(trainset.len())
            },
            Err(_) => false,
        },
{
    if trainset.len() >= 2 {
        law_the_split_loses_nothing(trainset);
    }
}

/// How many trials a preset makes: the larger of the largest `t` for which `2^t` is at most the
/// candidate count raised to twice the variables, and one and a half times the count, rounded down.
pub proof fn law_trials_grow_with_the_space(num_vars: nat, num_candidates: nat)
    requires
        num_candidates > 0,
    ensures
        worth(num_vars, 0) == 0,
        2 * worth(num_vars, num_candidates) + 1 >= 3 * num_candidates,
        power(num_candidates, 2 * num_vars) < power(2, worth(num_vars, num_candidates) + 1),
        power(2, worth(num_vars, num_candidates)) <= power(num_candidates, 2 * num_vars) || 2
            * worth(num_vars, num_candidates) <= 3 * num_candidates,
        variables(num_vars, true) == num_vars,
        variables(num_vars, false) == num_vars + num_vars,
{
    let v = power(num_candidates, 2 * num_vars);
    crate::powers::lemma_power_positive(num_candidates, 2 * num_vars);
    crate::powers::law_the_logarithm_is_the_largest_exponent(v);
    crate::powers::lemma_power_of_two_grows(
        floor_log2(v) + 1,
        worth(num_vars, num_candidates) + 1,
    );
}

/// Without a preset a run is what its settings say, on the whole validation set. With one, the preset
/// decides: it scores on as much of the validation set as was drawn, and by minibatches exactly where
/// that is more than fifty rows.
pub proof fn law_a_preset_overrides_the_settings(
    settings: SettingsModel,
    predictors: nat,
    zeroshot: bool,
    valset: Seq<ExampleModel>,
    drawn: Seq<usize>,
)
    ensures
        ({
            let mode = settings.mode(predictors, zeroshot, valset, drawn);
            &&& settings.auto is None ==> {
                &&& mode.num_trials == settings.num_trials
                &&& mode.valset == valset
                &&& mode.minibatch == settings.minibatch
                &&& mode.instruction_candidates == settings.num_candidates
                &&& mode.fewshot_candidates == settings.num_candidates
            }
            &&& settings.auto matches Some(auto) ==> {
                let count: nat = match auto {
                    Auto::Light => 6,
                    Auto::Medium => 12,
                    Auto::Heavy => 18,
                };
                let rows: nat = match auto {
                    Auto::Light => 100,
                    Auto::Medium => 300,
                    Auto::Heavy => 1000,
                };
                &&& mode.fewshot_candidates == count
                &&& zeroshot ==> mode.instruction_candidates == count
                &&& !zeroshot ==> 2 * mode.instruction_candidates == count
                &&& mode.num_trials == worth(
                    if zeroshot {
                        predictors
                    } else {
                        predictors * 2
                    },
                    count,
                )
                &&& mode.minibatch <==> valset.len() > 50 && rows > 50
                &&& mode.valset.len() == drawn.len()
                &&& forall|k: int|
                    0 <= k < drawn.len() ==> #[trigger] mode.valset[k] == valset[drawn[k] as int]
            }
            &&& settings.is_zeroshot() <==> settings.max_bootstrapped_demos == 0
                && settings.max_labeled_demos == 0
        }),
{
}

} // verus!
