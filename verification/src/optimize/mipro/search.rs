//! The trial loop: what to ask of the sampler, what to score, what to report back, and which
//! combination the student is left on.
//!
//! A plain run asks, scores and keeps the best. A minibatch run scores each trial on a subsample,
//! keeps the scores of every combination, and at intervals scores the best-averaging one on the
//! whole validation set. That score is reported to the sampler as a trial of its own, and only
//! such scores move the winner.
use vstd::prelude::*;
use crate::double::{exceeds, is_nan, Double};
use crate::duplicate::{append, Duplicate};
use crate::example::Example;
use crate::optimize::draw::least;
use crate::optimize::mipro::minibatch::{
    adjusted_trials, displayed_trials, full_due, full_evaluation_due, lemma_params_view,
    lemma_recorded_is_not_empty, Averages, AveragesModel,
};
use crate::optimize::mipro::space::{applied, apply, choice_in_range, Slot};
use crate::program::Program;

verus! {

/// One search trial: the choice made in each slot, and the score it earned.
#[derive(Debug)]
pub struct Trial {
    pub params: Vec<usize>,
    pub score: Double,
}

/// What a [`Trial`] holds.
#[verifier::ext_equal]
pub struct TrialModel {
    pub params: Seq<usize>,
    pub score: Double,
}

impl DeepView for Trial {
    type V = TrialModel;

    open spec fn deep_view(&self) -> TrialModel {
        TrialModel { params: self.params@, score: self.score }
    }
}

impl Duplicate for Trial {
    fn duplicate(&self) -> (r: Self) {
        let params = self.params.duplicate();
        proof {
            lemma_params_view(self.params);
            lemma_params_view(params);
        }
        Trial { params, score: self.score }
    }
}

/// What the search waits for.
#[derive(Debug)]
pub enum Stage {
    /// The score of the program as it came, on the whole validation set.
    Default,
    /// The sampler's next combination.
    Asking,
    /// The score of this combination, on the trial's batch.
    Trial { params: Vec<usize> },
    /// The mean of each scored combination, so that one can be picked for a full evaluation.
    Averaging,
    /// The score of this combination, on the whole validation set.
    Full { params: Vec<usize> },
    /// Nothing: every trial has run.
    Done,
}

/// What a [`Stage`] holds.
pub enum StageModel {
    Default,
    Asking,
    Trial { params: Seq<usize> },
    Averaging,
    Full { params: Seq<usize> },
    Done,
}

impl DeepView for Stage {
    type V = StageModel;

    open spec fn deep_view(&self) -> StageModel {
        match *self {
            Stage::Default => StageModel::Default,
            Stage::Asking => StageModel::Asking,
            Stage::Trial { params } => StageModel::Trial { params: params@ },
            Stage::Averaging => StageModel::Averaging,
            Stage::Full { params } => StageModel::Full { params: params@ },
            Stage::Done => StageModel::Done,
        }
    }
}

/// A search in progress.
#[derive(Debug)]
pub struct Search {
    pub minibatch: bool,
    pub full_eval_steps: usize,
    pub num_trials: usize,
    /// How many slots a combination chooses in.
    pub slots: usize,
    /// How many combinations the sampler has been asked for.
    pub asked: usize,
    /// Every trial in the order the sampler is told of them, the program as it came first.
    pub trials: Vec<Trial>,
    /// Those of the trials that were scored on the whole validation set.
    pub full: Vec<Trial>,
    /// The combination the student would be left on.
    pub best: Option<Trial>,
    pub averages: Averages,
    pub stage: Stage,
}

/// What a [`Search`] holds.
#[verifier::ext_equal]
pub struct SearchModel {
    pub minibatch: bool,
    pub full_eval_steps: nat,
    pub num_trials: nat,
    pub slots: nat,
    pub asked: nat,
    pub trials: Seq<TrialModel>,
    pub full: Seq<TrialModel>,
    pub best: Option<TrialModel>,
    pub averages: AveragesModel,
    pub stage: StageModel,
}

impl DeepView for Search {
    type V = SearchModel;

    open spec fn deep_view(&self) -> SearchModel {
        SearchModel {
            minibatch: self.minibatch,
            full_eval_steps: self.full_eval_steps as nat,
            num_trials: self.num_trials as nat,
            slots: self.slots as nat,
            asked: self.asked as nat,
            trials: self.trials.deep_view(),
            full: self.full.deep_view(),
            best: self.best.deep_view(),
            averages: self.averages.deep_view(),
            stage: self.stage.deep_view(),
        }
    }
}

/// The better of the held result and a new one: the new one only where its score exceeds.
pub open spec fn kept(best: Option<TrialModel>, next: TrialModel) -> Option<TrialModel> {
    match best {
        Some(held) => if exceeds(next.score, held.score) {
            Some(next)
        } else {
            best
        },
        None => Some(next),
    }
}

/// The result a run that may keep any of these trials keeps: the first of those whose score none
/// exceeds.
pub open spec fn best_of(trials: Seq<TrialModel>) -> Option<TrialModel>
    decreases trials.len(),
{
    if trials.len() == 0 {
        None
    } else {
        kept(best_of(trials.drop_last()), trials.last())
    }
}

/// The combination that leaves every predictor as it came.
pub open spec fn baseline(slots: nat) -> Seq<usize> {
    Seq::new(slots, |i: int| 0usize)
}

impl SearchModel {
    /// A search about to score the program as it came.
    pub open spec fn started(
        minibatch: bool,
        full_eval_steps: nat,
        num_trials: nat,
        slots: nat,
    ) -> SearchModel {
        SearchModel {
            minibatch,
            full_eval_steps,
            num_trials,
            slots,
            asked: 0,
            trials: Seq::empty(),
            full: Seq::empty(),
            best: None,
            averages: AveragesModel { scored: Seq::empty(), fully_evaluated: Seq::empty() },
            stage: StageModel::Default,
        }
    }

    /// What a finished trial leads to: the next combination, or the end.
    pub open spec fn onward(self) -> StageModel {
        if self.asked < self.num_trials {
            StageModel::Asking
        } else {
            StageModel::Done
        }
    }

    /// The program as it came is the first trial, and the first to be beaten.
    pub open spec fn default_scored(self, score: Double) -> SearchModel {
        let trial = TrialModel { params: baseline(self.slots), score };
        SearchModel {
            trials: seq![trial],
            full: seq![trial],
            best: Some(trial),
            stage: self.onward(),
            ..self
        }
    }

    /// The sampler answered with a combination.
    pub open spec fn answered(self, params: Seq<usize>) -> SearchModel {
        SearchModel { asked: self.asked + 1, stage: StageModel::Trial { params }, ..self }
    }

    /// The trial's score arrived. A minibatch score only enters the averages, and leads to a full
    /// evaluation where one is due at this trial's number; any other score may take the lead.
    pub open spec fn trial_scored(self, params: Seq<usize>, score: Double) -> SearchModel {
        let trial = TrialModel { params, score };
        let trials = self.trials.push(trial);
        if self.minibatch {
            SearchModel {
                trials,
                averages: self.averages.recorded(params, score),
                stage: if full_due(
                    trials.len(),
                    displayed_trials(self.num_trials, self.full_eval_steps),
                    self.full_eval_steps,
                ) {
                    StageModel::Averaging
                } else {
                    self.onward()
                },
                ..self
            }
        } else {
            SearchModel {
                trials,
                full: self.full.push(trial),
                best: kept(self.best, trial),
                stage: self.onward(),
                ..self
            }
        }
    }

    /// The entry at `i` was picked for a full evaluation.
    pub open spec fn picked(self, i: int) -> SearchModel {
        let params = self.averages.scored[i].0;
        SearchModel {
            averages: self.averages.marked(params),
            stage: StageModel::Full { params },
            ..self
        }
    }

    /// The full evaluation's score arrived: a trial of its own, and one that may take the lead.
    pub open spec fn full_scored(self, params: Seq<usize>, score: Double) -> SearchModel {
        let trial = TrialModel { params, score };
        SearchModel {
            trials: self.trials.push(trial),
            full: self.full.push(trial),
            best: kept(self.best, trial),
            stage: self.onward(),
            ..self
        }
    }

    /// How many full evaluations a minibatch run has had once so many of its trials are behind it:
    /// one for every `full_eval_steps` of them, and after the last trial one for the rest.
    pub open spec fn full_evaluations_after(self, behind: nat) -> int {
        if behind == self.num_trials {
            (behind + self.full_eval_steps - 1) / (self.full_eval_steps as int)
        } else {
            behind as int / (self.full_eval_steps as int)
        }
    }

    /// Whether a minibatch run is where its schedule puts it: so many trials, each full evaluation
    /// counted beside the trials, were logged, and no full evaluation is late.
    pub open spec fn on_schedule(self) -> bool {
        let steps = self.full_eval_steps as int;
        match self.stage {
            StageModel::Default => self.trials.len() == 0 && self.full.len() == 0,
            StageModel::Asking | StageModel::Done => {
                &&& self.full.len() == 1 + self.full_evaluations_after(self.asked)
                &&& self.trials.len() == self.asked + self.full.len()
            },
            StageModel::Trial { .. } => {
                &&& self.asked > 0
                &&& self.full.len() == 1 + (self.asked - 1) / steps
                &&& self.trials.len() == self.asked - 1 + self.full.len()
            },
            StageModel::Averaging | StageModel::Full { .. } => {
                &&& self.asked > 0
                &&& self.asked as int % steps == 0 || self.asked == self.num_trials
                &&& self.full.len() == 1 + (self.asked - 1) / steps
                &&& self.trials.len() == self.asked + self.full.len()
            },
        }
    }

    /// Whether a run keeps its schedule, where it has one: only a minibatch run does.
    pub open spec fn scheduled(self) -> bool {
        self.minibatch ==> self.on_schedule()
    }

    /// What holds of every search between two events.
    pub open spec fn well_formed(self) -> bool {
        &&& self.full_eval_steps > 0
        &&& self.full_eval_steps < usize::MAX
        &&& 2 * self.num_trials + 3 <= usize::MAX
        &&& self.asked <= self.num_trials
        &&& self.stage is Asking ==> self.asked < self.num_trials
        &&& self.stage is Done ==> self.asked == self.num_trials
        &&& !self.minibatch ==> self.trials.len() == match self.stage {
            StageModel::Default => 0,
            StageModel::Trial { .. } => self.asked,
            _ => self.asked + 1,
        }
        &&& self.stage is Averaging ==> self.averages.scored.len() > 0
        &&& self.stage is Averaging || self.stage is Full ==> self.minibatch
        &&& match self.stage {
            StageModel::Default => self.trials.len() == 0 && self.best is None && self.asked == 0,
            StageModel::Trial { .. } => 0 < self.trials.len() <= 2 * self.asked - 1,
            StageModel::Averaging | StageModel::Full { .. } => 0 < self.trials.len() <= 2
                * self.asked,
            StageModel::Asking | StageModel::Done => 0 < self.trials.len() <= 2 * self.asked + 1,
        }
        &&& self.trials.len() > 0 ==> self.trials[0].params == baseline(self.slots)
        &&& self.trials.len() > 0 ==> self.full.len() > 0 && self.full[0] == self.trials[0]
        &&& self.trials.len() == 0 ==> self.full.len() == 0
        &&& forall|i: int| 0 <= i < self.full.len() ==> self.trials.contains(#[trigger] self.full[i])
        &&& !self.minibatch ==> self.full == self.trials
        &&& self.best == best_of(self.full)
    }
}

/// Why a search was refused.
#[derive(Clone, Copy, Debug, PartialEq, Eq, Structural)]
pub enum SearchRefused {
    /// A minibatch run needs an interval between its full evaluations.
    NoFullEvaluationInterval,
}

impl SearchRefused {
    pub fn message(self) -> (r: String)
        ensures
            r@ == "minibatch_full_eval_steps must be greater than zero"@,
    {
        "minibatch_full_eval_steps must be greater than zero".to_owned()
    }
}

proof fn lemma_best_of_one(trial: TrialModel)
    ensures
        best_of(seq![trial]) == Some(trial),
{
    assert(seq![trial].drop_last() =~= Seq::empty());
    assert(best_of(Seq::<TrialModel>::empty()) is None);
}

/// What is among some trials is among more of them, and so is the last.
proof fn lemma_among_more(full: Seq<TrialModel>, trials: Seq<TrialModel>, trial: TrialModel)
    requires
        forall|i: int| 0 <= i < full.len() ==> trials.contains(#[trigger] full[i]),
    ensures
        forall|i: int| 0 <= i < full.len() ==> trials.push(trial).contains(#[trigger] full[i]),
        trials.push(trial).contains(trial),
        forall|i: int|
            0 <= i < full.push(trial).len() ==> trials.push(trial).contains(
                #[trigger] full.push(trial)[i],
            ),
{
    let more = trials.push(trial);
    assert(more.last() == trial);
    assert forall|i: int| 0 <= i < full.len() implies more.contains(#[trigger] full[i]) by {
        let at = choose|at: int| 0 <= at < trials.len() && trials[at] == full[i];
        assert(more[at] == full[i]);
    }
    assert forall|i: int| 0 <= i < full.push(trial).len() implies more.contains(
        #[trigger] full.push(trial)[i],
    ) by {
        if i < full.len() {
            assert(full.push(trial)[i] == full[i]);
        }
    }
}

proof fn lemma_best_of_push(trials: Seq<TrialModel>, trial: TrialModel)
    ensures
        best_of(trials.push(trial)) == kept(best_of(trials), trial),
{
    assert(trials.push(trial).drop_last() =~= trials);
}

impl Search {
    /// A search over `slots` slots, refused where a minibatch run names no interval between its
    /// full evaluations.
    pub fn begin(
        minibatch: bool,
        full_eval_steps: usize,
        num_trials: usize,
        slots: usize,
    ) -> (r: Result<Search, SearchRefused>)
        requires
            minibatch || full_eval_steps > 0,
            full_eval_steps < usize::MAX,
            2 * num_trials + 3 <= usize::MAX,
        ensures
            match r {
                Ok(search) => {
                    &&& !(minibatch && full_eval_steps == 0)
                    &&& search.deep_view() == SearchModel::started(
                        minibatch,
                        full_eval_steps as nat,
                        num_trials as nat,
                        slots as nat,
                    )
                    &&& search.deep_view().well_formed()
                    &&& search.deep_view().scheduled()
                },
                Err(_) => minibatch && full_eval_steps == 0,
            },
    {
        if minibatch && full_eval_steps == 0 {
            return Err(SearchRefused::NoFullEvaluationInterval);
        }
        let trials: Vec<Trial> = Vec::new();
        let full: Vec<Trial> = Vec::new();
        proof {
            assert(trials.deep_view() =~= Seq::empty());
            assert(full.deep_view() =~= Seq::empty());
        }
        Ok(
            Search {
                minibatch,
                full_eval_steps,
                num_trials,
                slots,
                asked: 0,
                trials,
                full,
                best: None,
                averages: Averages::default(),
                stage: Stage::Default,
            },
        )
    }

    fn onward(&self) -> (r: Stage)
        ensures
            r.deep_view() == self.deep_view().onward(),
    {
        if self.asked < self.num_trials {
            Stage::Asking
        } else {
            Stage::Done
        }
    }

    /// Keeps a result where its score exceeds the held one.
    fn keep(&mut self, trial: &Trial)
        ensures
            final(self).deep_view() == (SearchModel {
                best: kept(old(self).deep_view().best, trial.deep_view()),
                ..old(self).deep_view()
            }),
    {
        let replaces: bool = match &self.best {
            Some(held) => trial.score.exceeds(held.score),
            None => true,
        };
        if replaces {
            self.best = Some(trial.duplicate());
        }
    }

    /// The program as it came was scored.
    pub fn default_scored(&mut self, score: Double)
        requires
            old(self).deep_view().well_formed(),
            old(self).deep_view().stage is Default,
        ensures
            final(self).deep_view() == old(self).deep_view().default_scored(score),
            final(self).deep_view().well_formed(),
            old(self).deep_view().scheduled() ==> final(self).deep_view().scheduled(),
    {
        let mut params: Vec<usize> = Vec::new();
        while params.len() < self.slots
            invariant
                *self == *old(self),
                params@.len() <= self.slots,
                params@ =~= baseline(params@.len()),
            decreases self.slots - params@.len(),
        {
            params.push(0);
        }
        let trial = Trial { params, score };
        self.best = Some(trial.duplicate());
        append(&mut self.full, trial.duplicate());
        append(&mut self.trials, trial);
        self.stage = self.onward();
        proof {
            let after = old(self).deep_view().default_scored(score);
            assert(self.deep_view().trials =~= after.trials);
            assert(self.deep_view().full =~= after.full);
            lemma_best_of_one(after.full[0]);
            lemma_nothing_behind(after);
        }
    }

    /// The sampler answered with a combination, which is to be scored next.
    pub fn answered(&mut self, params: &Vec<usize>)
        requires
            old(self).deep_view().well_formed(),
            old(self).deep_view().stage is Asking,
        ensures
            final(self).deep_view() == old(self).deep_view().answered(params@),
            final(self).deep_view().well_formed(),
            old(self).deep_view().scheduled() ==> final(self).deep_view().scheduled(),
    {
        let copy = params.duplicate();
        proof {
            lemma_params_view(*params);
            lemma_params_view(copy);
        }
        self.asked = self.asked + 1;
        self.stage = Stage::Trial { params: copy };
        proof {
            assert(old(self).deep_view().asked < old(self).deep_view().num_trials);
        }
    }

    /// The combination in question was scored on the trial's batch.
    pub fn trial_scored(&mut self, score: Double)
        requires
            old(self).deep_view().well_formed(),
            old(self).deep_view().stage is Trial,
        ensures
            final(self).deep_view() == old(self).deep_view().trial_scored(
                old(self).deep_view().stage->Trial_params,
                score,
            ),
            final(self).deep_view().well_formed(),
            old(self).deep_view().scheduled() ==> final(self).deep_view().scheduled(),
    {
        let params: Vec<usize> = match &self.stage {
            Stage::Trial { params } => params.duplicate(),
            _ => Vec::new(),
        };
        proof {
            lemma_params_view(params);
            lemma_params_view(self.stage->Trial_params);
        }
        let ghost before = self.deep_view();
        let trial = Trial { params, score };
        proof {
            lemma_best_of_push(before.full, trial.deep_view());
            lemma_among_more(before.full, before.trials, trial.deep_view());
        }
        if self.minibatch {
            self.averages.record(&trial.params, trial.score);
            proof {
                if before.scheduled() {
                    lemma_on_schedule(before);
                }
                lemma_recorded_is_not_empty(before.averages, trial.params@, score);
            }
            append(&mut self.trials, trial);
            proof {
                assert(self.trials.deep_view().len() == self.trials@.len());
                assert(before.trials.len() + 1 == self.trials@.len());
                lemma_displayed(before.num_trials, before.full_eval_steps);
            }
            let adjusted: usize = adjusted_trials(self.num_trials, self.full_eval_steps);
            if full_evaluation_due(self.trials.len(), adjusted, self.full_eval_steps) {
                self.stage = Stage::Averaging;
            } else {
                self.stage = self.onward();
            }
        } else {
            self.keep(&trial);
            append(&mut self.full, trial.duplicate());
            append(&mut self.trials, trial);
            self.stage = self.onward();
        }
    }

    /// The means of the scored combinations, in their order, from which the one to evaluate fully
    /// is picked.
    pub fn averaged(&mut self, means: &Vec<Double>)
        requires
            old(self).deep_view().well_formed(),
            old(self).deep_view().stage is Averaging,
            means@.len() == old(self).deep_view().averages.scored.len(),
            forall|i: int| 0 <= i < means@.len() ==> !is_nan(#[trigger] means@[i]),
        ensures
            exists|i: int|
                old(self).deep_view().averages.is_pick(means@, i) && final(self).deep_view()
                    == old(self).deep_view().picked(i),
            final(self).deep_view().well_formed(),
            old(self).deep_view().scheduled() ==> final(self).deep_view().scheduled(),
    {
        let pick: Option<usize> = self.averages.highest_average(means);
        match pick {
            Some(at) => {
                let params = self.averages.scored[at].0.duplicate();
                proof {
                    lemma_params_view(params);
                    assert(self.deep_view().averages.scored[at as int].0 == params@);
                }
                self.averages.mark_evaluated(&params);
                self.stage = Stage::Full { params };
                proof {
                    assert(self.deep_view() =~= old(self).deep_view().picked(at as int));
                }
            },
            None => {},
        }
    }

    /// The picked combination was scored on the whole validation set.
    pub fn full_scored(&mut self, score: Double)
        requires
            old(self).deep_view().well_formed(),
            old(self).deep_view().stage is Full,
        ensures
            final(self).deep_view() == old(self).deep_view().full_scored(
                old(self).deep_view().stage->Full_params,
                score,
            ),
            final(self).deep_view().well_formed(),
            old(self).deep_view().scheduled() ==> final(self).deep_view().scheduled(),
    {
        let params: Vec<usize> = match &self.stage {
            Stage::Full { params } => params.duplicate(),
            _ => Vec::new(),
        };
        proof {
            lemma_params_view(params);
            lemma_params_view(self.stage->Full_params);
        }
        let ghost before = self.deep_view();
        let trial = Trial { params, score };
        proof {
            lemma_best_of_push(before.full, trial.deep_view());
            lemma_among_more(before.full, before.trials, trial.deep_view());
        }
        self.keep(&trial);
        append(&mut self.full, trial.duplicate());
        append(&mut self.trials, trial);
        self.stage = self.onward();
        proof {
            if before.minibatch && before.scheduled() {
                lemma_on_schedule(before);
            }
        }
    }

    /// Leaves the student on the winning combination of a run that is over, and hands out its
    /// trials.
    pub fn finish(
        self,
        student: &mut Program,
        candidates: &Vec<Vec<String>>,
        demo_sets: &Option<Vec<Vec<Vec<Example>>>>,
        space: &Vec<Slot>,
    ) -> (r: Vec<Trial>)
        requires
            self.deep_view().well_formed(),
            self.deep_view().stage is Done,
            forall|i: int|
                0 <= i < space@.len() && i < self.deep_view().best->0.params.len()
                    ==> choice_in_range(
                    old(student).deep_view().len(),
                    candidates.deep_view(),
                    demo_sets.deep_view(),
                    #[trigger] space@[i],
                    self.deep_view().best->0.params[i],
                ),
        ensures
            final(student).deep_view() == applied(
                old(student).deep_view(),
                candidates.deep_view(),
                demo_sets.deep_view(),
                space@,
                self.deep_view().best->0.params,
                least(space@.len(), self.deep_view().best->0.params.len()),
            ),
            r.deep_view() == self.deep_view().trials,
    {
        proof {
            law_the_winner_is_never_exceeded(self.deep_view().full, 0);
        }
        match &self.best {
            Some(best) => apply(student, candidates, demo_sets, space, &best.params),
            None => {},
        }
        self.trials
    }
}

/// Where the schedule of a run falls due, in terms of the trials that were asked for.
proof fn lemma_on_schedule(search: SearchModel)
    requires
        search.full_eval_steps > 0,
        0 < search.asked <= search.num_trials,
    ensures
        ({
            let steps = search.full_eval_steps as int;
            let asked = search.asked as int;
            let logged = (asked + 1 + (asked - 1) / steps) as nat;
            &&& (asked - 1) / steps >= 0
            &&& full_due(
                logged,
                displayed_trials(search.num_trials, search.full_eval_steps),
                search.full_eval_steps,
            ) <==> asked % steps == 0 || asked == search.num_trials
            &&& asked % steps == 0 ==> asked / steps == (asked - 1) / steps + 1
            &&& asked % steps != 0 ==> asked / steps == (asked - 1) / steps
            &&& (asked + steps - 1) / steps == (asked - 1) / steps + 1
        }),
{
    let steps = search.full_eval_steps as int;
    let asked = search.asked as int;
    let n = search.num_trials as int;
    let q = (asked - 1) / steps;
    let left = (asked - 1) % steps;
    vstd::arithmetic::div_mod::lemma_fundamental_div_mod(asked - 1, steps);
    assert(0 <= left < steps && q >= 0) by (nonlinear_arith)
        requires
            steps > 0,
            asked > 0,
            q == (asked - 1) / steps,
            left == (asked - 1) % steps,
    ;
    let logged = asked + 1 + q;
    assert(logged == q * (steps + 1) + (left + 2)) by (nonlinear_arith)
        requires
            asked - 1 == steps * q + left,
            logged == asked + 1 + q,
    ;
    if left + 1 == steps {
        assert(asked == (q + 1) * steps) by (nonlinear_arith)
            requires
                asked - 1 == steps * q + left,
                left + 1 == steps,
        ;
        vstd::arithmetic::div_mod::lemma_fundamental_div_mod_converse(asked, steps, q + 1, 0);
        assert(logged == (q + 1) * (steps + 1)) by (nonlinear_arith)
            requires
                logged == q * (steps + 1) + (left + 2),
                left + 1 == steps,
        ;
        vstd::arithmetic::div_mod::lemma_fundamental_div_mod_converse(
            logged,
            steps + 1,
            q + 1,
            0,
        );
    } else {
        vstd::arithmetic::div_mod::lemma_fundamental_div_mod_converse(asked, steps, q, left + 1);
        vstd::arithmetic::div_mod::lemma_fundamental_div_mod_converse(
            logged,
            steps + 1,
            q,
            left + 2,
        );
    }
    assert(asked + steps - 1 == (q + 1) * steps + left) by (nonlinear_arith)
        requires
            asked - 1 == steps * q + left,
    ;
    vstd::arithmetic::div_mod::lemma_fundamental_div_mod_converse(
        asked + steps - 1,
        steps,
        q + 1,
        left,
    );
    let last = (n - 1) / steps;
    let over = (n - 1) % steps;
    vstd::arithmetic::div_mod::lemma_fundamental_div_mod(n - 1, steps);
    assert(0 <= over < steps && last >= 0) by (nonlinear_arith)
        requires
            steps > 0,
            n > 0,
            last == (n - 1) / steps,
            over == (n - 1) % steps,
    ;
    if over + 1 == steps {
        assert(n == (last + 1) * steps) by (nonlinear_arith)
            requires
                n - 1 == steps * last + over,
                over + 1 == steps,
        ;
        vstd::arithmetic::div_mod::lemma_fundamental_div_mod_converse(n, steps, last + 1, 0);
    } else {
        vstd::arithmetic::div_mod::lemma_fundamental_div_mod_converse(n, steps, last, over + 1);
    }
    assert(displayed_trials(search.num_trials, search.full_eval_steps) == n + last + 2);
    assert(q <= last) by (nonlinear_arith)
        requires
            steps > 0,
            asked - 1 == steps * q + left,
            n - 1 == steps * last + over,
            0 <= left,
            over < steps,
            asked <= n,
    ;
}

/// A run that has asked for nothing has had no full evaluation.
proof fn lemma_nothing_behind(search: SearchModel)
    requires
        search.full_eval_steps > 0,
        search.asked == 0,
    ensures
        search.full_evaluations_after(0) == 0,
{
    let steps = search.full_eval_steps as int;
    assert((steps - 1) / steps == 0 && 0int / steps == 0) by (nonlinear_arith)
        requires
            steps > 0,
    ;
}

proof fn lemma_displayed(num_trials: nat, full_eval_steps: nat)
    requires
        full_eval_steps > 0,
    ensures
        displayed_trials(num_trials, full_eval_steps) <= 2 * num_trials + 2,
{
    assert(num_trials / full_eval_steps <= num_trials) by (nonlinear_arith)
        requires
            full_eval_steps > 0,
    ;
}

/// A trial scored on a minibatch never moves the winner.
pub proof fn law_a_minibatch_score_moves_no_winner(
    search: SearchModel,
    params: Seq<usize>,
    score: Double,
)
    requires
        search.minibatch,
    ensures
        search.trial_scored(params, score).best == search.best,
{
}

/// Every score that reaches the search is reported as the latest trial, so the log holds exactly
/// what the sampler is told, in order.
pub proof fn law_every_score_is_logged(search: SearchModel, params: Seq<usize>, score: Double)
    ensures
        search.trial_scored(params, score).trials == search.trials.push(
            TrialModel { params, score },
        ),
        search.full_scored(params, score).trials == search.trials.push(
            TrialModel { params, score },
        ),
{
}

/// A full evaluation takes up a combination at most once while another has not had its turn.
pub proof fn law_a_full_evaluation_prefers_the_unevaluated(
    search: SearchModel,
    means: Seq<Double>,
    i: int,
)
    requires
        search.averages.is_pick(means, i),
        exists|j: int| 0 <= j < search.averages.scored.len() && search.averages.open_at(j),
    ensures
        !search.averages.fully_evaluated.contains(search.averages.scored[i].0),
        search.picked(i).averages.fully_evaluated.contains(search.averages.scored[i].0),
{
    let after = search.picked(i).averages.fully_evaluated;
    assert(after.last() == search.averages.scored[i].0);
}

/// A run that is over made every trial it was to make: one per combination asked for, beside the
/// program as it came, and in a minibatch run at most one full evaluation after each.
pub proof fn law_a_finished_run_made_every_trial(search: SearchModel)
    requires
        search.well_formed(),
        search.stage is Done,
    ensures
        search.asked == search.num_trials,
        !search.minibatch ==> search.trials.len() == search.num_trials + 1,
        search.trials.len() <= 2 * search.num_trials + 1,
        search.best is Some && search.trials.contains(search.best->0),
{
    law_the_winner_is_the_best_full_pass(search, 0);
}

/// Once the program as it came was scored, the winner is one of the trials scored on the whole
/// validation set, of which that program is the first, and none of them exceeds it.
pub proof fn law_the_winner_is_the_best_full_pass(search: SearchModel, i: int)
    requires
        search.well_formed(),
        0 <= i < search.full.len(),
    ensures
        search.best is Some,
        search.full.contains(search.best->0),
        search.trials.contains(search.best->0),
        !exceeds(search.full[i].score, search.best->0.score),
        search.full[0].params == baseline(search.slots),
        !search.minibatch ==> search.best == best_of(search.trials),
{
    law_the_winner_is_never_exceeded(search.full, i);
    let at = choose|at: int| 0 <= at < search.full.len() && search.full[at] == search.best->0;
    assert(search.trials.contains(search.full[at]));
}

/// A run in which nothing but the program as it came was scored on the whole validation set ends
/// on that program.
pub proof fn law_a_run_without_a_full_evaluation_ends_on_the_baseline(search: SearchModel)
    requires
        search.well_formed(),
        search.full.len() == 1,
    ensures
        search.best == Some(search.trials[0]),
        search.best->0.params == baseline(search.slots),
{
    assert(search.full =~= seq![search.full[0]]);
    lemma_best_of_one(search.full[0]);
}

/// A minibatch run never goes longer than `full_eval_steps` trials without a full evaluation, and
/// once it is over it has had one for every `full_eval_steps` trials and one for the rest: every
/// trial was followed, at that distance, by a pass over the whole validation set.
pub proof fn law_full_evaluations_come_at_their_interval(search: SearchModel)
    requires
        search.well_formed(),
        search.scheduled(),
        search.minibatch,
        search.full.len() > 0,
    ensures
        ({
            let steps = search.full_eval_steps as int;
            let evaluations = search.full.len() - 1;
            &&& search.asked <= steps * (evaluations + 1)
            &&& search.stage is Asking ==> steps * evaluations <= search.asked < steps * (
            evaluations + 1)
            &&& search.stage is Done ==> search.num_trials <= steps * evaluations
                < search.num_trials + steps
            &&& search.stage is Done ==> search.trials.len() == search.num_trials + 1 + evaluations
        }),
{
    let steps = search.full_eval_steps as int;
    let asked = search.asked as int;
    if asked == 0 {
        lemma_nothing_behind(search);
        assert(steps * (search.full.len() - 1) == 0 && steps * (search.full.len() - 1 + 1) == steps)
            by (nonlinear_arith)
            requires
                search.full.len() == 1,
        ;
    } else {
        lemma_on_schedule(search);
        let q = (asked - 1) / steps;
        vstd::arithmetic::div_mod::lemma_fundamental_div_mod(asked - 1, steps);
        vstd::arithmetic::div_mod::lemma_mod_bound(asked - 1, steps);
        vstd::arithmetic::div_mod::lemma_fundamental_div_mod(asked, steps);
        vstd::arithmetic::div_mod::lemma_mod_bound(asked, steps);
        assert(steps * (q + 1) == steps * q + steps) by (nonlinear_arith);
        assert(steps * (q + 2) == steps * q + steps + steps) by (nonlinear_arith);
        let e = asked / steps;
        assert(steps * (e + 1) == steps * e + steps) by (nonlinear_arith);
    }
}

/// The record of full passes grows by exactly the full evaluations, and in a plain run by every
/// trial.
pub proof fn law_only_a_full_pass_is_recorded_as_one(
    search: SearchModel,
    params: Seq<usize>,
    score: Double,
)
    ensures
        search.full_scored(params, score).full == search.full.push(TrialModel { params, score }),
        search.trial_scored(params, score).full == if search.minibatch {
            search.full
        } else {
            search.full.push(TrialModel { params, score })
        },
{
}

/// The winner among some trials is one of them, and none of them exceeds it.
pub proof fn law_the_winner_is_never_exceeded(trials: Seq<TrialModel>, i: int)
    requires
        0 <= i < trials.len(),
    ensures
        best_of(trials) is Some,
        trials.contains(best_of(trials)->0),
        !exceeds(trials[i].score, best_of(trials)->0.score),
    decreases trials.len(),
{
    let before = trials.drop_last();
    if before.len() > 0 {
        law_the_winner_is_never_exceeded(before, if i < before.len() {
            i
        } else {
            0
        });
        if before.contains(best_of(before)->0) {
            let at = choose|at: int| 0 <= at < before.len() && before[at] == best_of(before)->0;
            assert(trials[at] == best_of(before)->0);
        }
    }
    assert(trials[trials.len() - 1] == trials.last());
}

/// The program as it stands is scored first: a full evaluation of the first choice for every slot,
/// which is the best so far.
pub proof fn law_the_program_itself_is_scored_first(search: SearchModel, score: Double)
    ensures
        ({
            let after = search.default_scored(score);
            let first = after.trials[0];
            &&& after.trials.len() == 1
            &&& after.full == after.trials
            &&& after.best == Some(first)
            &&& first.score == score
            &&& first.params == Seq::new(search.slots, |i: int| 0usize)
            &&& after.stage is Asking <==> search.asked < search.num_trials
            &&& after.stage is Done <==> search.asked >= search.num_trials
            &&& after.asked == search.asked && after.averages == search.averages
        }),
{
}

/// A later tie never displaces an earlier winner: one trial more wins exactly where it exceeds the
/// winner before it.
pub proof fn law_a_tie_keeps_the_earlier_winner(trials: Seq<TrialModel>, next: TrialModel)
    ensures
        best_of(seq![next]) == Some(next),
        trials.len() > 0 && exceeds(next.score, best_of(trials)->0.score) ==> best_of(
            trials.push(next),
        ) == Some(next),
        trials.len() > 0 && !exceeds(next.score, best_of(trials)->0.score) ==> best_of(
            trials.push(next),
        ) == best_of(trials),
{
    assert(trials.push(next).drop_last() =~= trials);
    assert(seq![next].drop_last() =~= Seq::<TrialModel>::empty());
    assert(best_of(Seq::empty()) is None);
    if trials.len() > 0 {
        law_the_winner_is_never_exceeded(trials, 0);
    }
}

/// A minibatch score is averaged with the others of its combination; a score on the whole set is not,
/// and a combination picked for a full evaluation is the one that is evaluated.
pub proof fn law_minibatch_scores_are_averaged(
    search: SearchModel,
    params: Seq<usize>,
    score: Double,
    i: int,
)
    ensures
        search.minibatch ==> search.trial_scored(params, score).averages
            == search.averages.recorded(params, score),
        !search.minibatch ==> search.trial_scored(params, score).averages == search.averages,
        search.full_scored(params, score).averages == search.averages,
        search.picked(i).stage == (StageModel::Full { params: search.averages.scored[i].0 }),
        search.picked(i).trials == search.trials,
        search.picked(i).averages == search.averages.marked(search.averages.scored[i].0),
{
}

} // verus!
